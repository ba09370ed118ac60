//! Repository references of the form `owner/name`.

use itertools::Itertools;
use vstd::prelude::*;
use vstd::string::*;

verus! {

/// What a repository reference is: the account that owns the repository and
/// the repository's name under that account.
pub struct RepositoryView {
    pub owner: Seq<char>,
    pub name: Seq<char>,
}

/// A part of a repository reference: not empty, and free of slashes.
pub open spec fn is_part(text: Seq<char>) -> bool {
    text.len() > 0 && !text.contains('/')
}

/// `text` is the written form of the repository `name` of `owner`: the two
/// parts with one slash between them.
pub open spec fn names_repository(text: Seq<char>, owner: Seq<char>, name: Seq<char>) -> bool {
    &&& text == owner + seq!['/'] + name
    &&& is_part(owner)
    &&& is_part(name)
}

/// `text` holds exactly one slash, and it stands neither first nor last.
pub open spec fn is_reference(text: Seq<char>) -> bool {
    slashes(text) == 1 && text.first() != '/' && text.last() != '/'
}

/// How many slashes `text` holds.
pub open spec fn slashes(text: Seq<char>) -> nat
    decreases text.len(),
{
    if text.len() == 0 {
        0
    } else if text.last() == '/' {
        slashes(text.drop_last()) + 1
    } else {
        slashes(text.drop_last())
    }
}

/// The pieces of a text put together again, with one slash between each two
/// neighbours.
spec fn joined(pieces: Seq<Seq<char>>) -> Seq<char>
    decreases pieces.len(),
{
    if pieces.len() == 0 {
        Seq::empty()
    } else if pieces.len() == 1 {
        pieces[0]
    } else {
        joined(pieces.drop_last()) + seq!['/'] + pieces.last()
    }
}

/// The pieces, each as the text it holds.
spec fn texts(pieces: Seq<String>) -> Seq<Seq<char>> {
    pieces.map_values(|piece: String| piece@)
}

/// Slashes add up over concatenation.
pub proof fn lemma_slashes_concat(a: Seq<char>, b: Seq<char>)
    ensures
        slashes(a + b) == slashes(a) + slashes(b),
    decreases b.len(),
{
    if b.len() == 0 {
        assert(a + b =~= a);
    } else {
        assert((a + b).drop_last() =~= a + b.drop_last());
        assert((a + b).last() == b.last());
        lemma_slashes_concat(a, b.drop_last());
    }
}

/// A text holds no slash exactly when its slash count is zero.
pub proof fn lemma_slashes_zero(text: Seq<char>)
    ensures
        slashes(text) == 0 <==> !text.contains('/'),
    decreases text.len(),
{
    if text.len() > 0 {
        let front = text.drop_last();
        lemma_slashes_zero(front);
        if text.contains('/') {
            let i = choose|i: int| 0 <= i < text.len() && text[i] == '/';
            if i < front.len() {
                assert(front[i] == '/');
            }
        } else {
            assert forall|i: int| 0 <= i < front.len() implies front[i] != '/' by {
                assert(text[i] == front[i]);
            }
        }
    }
}

/// A written repository reference holds exactly one slash.
pub proof fn lemma_reference_has_one_slash(text: Seq<char>, owner: Seq<char>, name: Seq<char>)
    requires
        names_repository(text, owner, name),
    ensures
        slashes(text) == 1,
{
    lemma_slashes_zero(owner);
    lemma_slashes_zero(name);
    lemma_slashes_concat(owner, seq!['/']);
    lemma_slashes_concat(owner + seq!['/'], name);
    assert(slashes(seq!['/']) == 1) by {
        reveal_with_fuel(slashes, 2);
    }
}

/// The texts that are written repository references are those with exactly
/// one slash that stands neither first nor last.
pub proof fn lemma_reference_iff(text: Seq<char>)
    ensures
        is_reference(text) <==> exists|owner: Seq<char>, name: Seq<char>|
            names_repository(text, owner, name),
{
    if is_reference(text) {
        lemma_slashes_zero(text);
        let i = choose|i: int| 0 <= i < text.len() && text[i] == '/';
        let owner = text.take(i);
        let name = text.skip(i + 1);
        assert(text =~= owner + seq!['/'] + name);
        lemma_slashes_concat(owner, seq!['/']);
        lemma_slashes_concat(owner + seq!['/'], name);
        assert(slashes(seq!['/']) == 1) by {
            reveal_with_fuel(slashes, 2);
        }
        lemma_slashes_zero(owner);
        lemma_slashes_zero(name);
        assert(names_repository(text, owner, name));
    }
    if exists|owner: Seq<char>, name: Seq<char>| names_repository(text, owner, name) {
        let (owner, name) = choose|owner: Seq<char>, name: Seq<char>|
            names_repository(text, owner, name);
        lemma_reference_has_one_slash(text, owner, name);
        assert(text.first() == owner.first());
        assert(text.last() == name.last());
        assert(owner.contains(owner.first()));
        assert(name.contains(name.last()));
    }
}

/// A text is the written form of at most one repository reference.
pub proof fn lemma_reference_unique(
    text: Seq<char>,
    owner: Seq<char>,
    name: Seq<char>,
    other_owner: Seq<char>,
    other_name: Seq<char>,
)
    requires
        text == owner + seq!['/'] + name,
        !owner.contains('/'),
        !name.contains('/'),
        text == other_owner + seq!['/'] + other_name,
        !other_owner.contains('/'),
        !other_name.contains('/'),
    ensures
        owner == other_owner,
        name == other_name,
{
    let a = owner.len() as int;
    let b = other_owner.len() as int;
    assert(text[a] == '/');
    assert(text[b] == '/');
    if a < b {
        assert(other_owner[a] == text[a]);
    }
    if b < a {
        assert(owner[b] == text[b]);
    }
    assert(owner =~= text.subrange(0, a));
    assert(other_owner =~= text.subrange(0, b));
    assert(name =~= text.subrange(a + 1, text.len() as int));
    assert(other_name =~= text.subrange(b + 1, text.len() as int));
}

/// Why a text is not a repository reference.
#[derive(Debug, Clone, Copy, PartialEq, Eq)]
pub enum RepositoryPathParseError {
    /// The text is not two non-empty parts with exactly one slash between.
    Invalid,
}

impl RepositoryPathParseError {
    /// The error in words.
    pub fn message(&self) -> (text: String)
        ensures
            text@ == "invalid repository path"@,
    {
        String::from_str("invalid repository path")
    }
}

/// A reference to one repository on the forge.
#[derive(Debug, PartialEq, Eq)]
pub struct RepositoryPath {
    owner: String,
    name: String,
}

impl View for RepositoryPath {
    type V = RepositoryView;

    closed spec fn view(&self) -> RepositoryView {
        RepositoryView { owner: self.owner@, name: self.name@ }
    }
}

/// Cuts `s` at its slashes. The pieces come in the order in which they stand
/// in `s`; none holds a slash, and there is one more of them than slashes.
fn split_slashes(s: &str) -> (parts: Vec<String>)
    ensures
        parts@.len() == slashes(s@) + 1,
        joined(texts(parts@)) == s@,
        forall|k: int| 0 <= k < parts@.len() ==> !(#[trigger] parts@[k])@.contains('/'),
{
    let n = s.unicode_len();
    let mut parts: Vec<String> = Vec::new();
    let mut start: usize = 0;
    let mut i: usize = 0;
    assert(s@.take(0) =~= Seq::<char>::empty());
    for c in chars: s.chars()
        invariant
            chars.seq() == s@,
            i == chars.index(),
            n == s@.len(),
            start <= i <= n,
            parts@.len() == slashes(s@.take(i as int)),
            parts@.len() == 0 ==> start == 0,
            parts@.len() > 0 ==> joined(texts(parts@)) + seq!['/'] == s@.take(start as int),
            forall|k: int| 0 <= k < parts@.len() ==> !(#[trigger] parts@[k])@.contains('/'),
            forall|j: int| start <= j < i ==> s@[j] != '/',
    {
        proof {
            assert(c == s@[i as int]);
            assert(s@.take(i + 1).drop_last() =~= s@.take(i as int));
            assert(s@.take(i + 1).last() == s@[i as int]);
        }
        if c == '/' {
            let piece = String::from_str(s.substring_char(start, i));
            let ghost before = parts@;
            parts.push(piece);
            proof {
                assert(texts(parts@).drop_last() =~= texts(before));
                assert(texts(parts@).last() == piece@);
                assert(s@.take(start as int) + piece@ + seq!['/'] =~= s@.take(i + 1));
                if before.len() == 0 {
                    assert(joined(texts(parts@)) + seq!['/'] =~= s@.take(i + 1));
                } else {
                    assert(joined(texts(parts@)) + seq!['/'] =~= s@.take(start as int) + piece@
                        + seq!['/']);
                }
            }
            start = i + 1;
        }
        i = i + 1;
    }
    assert(i == n);
    let piece = String::from_str(s.substring_char(start, n));
    let ghost before = parts@;
    parts.push(piece);
    proof {
        assert(s@.take(n as int) =~= s@);
        assert(texts(parts@).drop_last() =~= texts(before));
        assert(texts(parts@).last() == piece@);
        assert(s@.take(start as int) + piece@ =~= s@);
        if before.len() > 0 {
            assert(joined(texts(parts@)) =~= s@.take(start as int) + piece@);
        }
    }
    parts
}

/// Calls `Itertools::collect_tuple` on the pieces, asking for a pair. The
/// method hands out the items as a tuple when the iterator yields exactly as
/// many as the tuple holds, in the iterator's order, and `None` when it
/// yields fewer or more. The contract states this of the method; it is
/// taken on trust, not proved.
#[verifier::external_body]
fn collect_pair(parts: Vec<String>) -> (pair: Option<(String, String)>)
    ensures
        pair is Some <==> parts@.len() == 2,
        pair matches Some((first, second)) ==> first@ == parts@[0]@ && second@ == parts@[1]@,
{
    parts.into_iter().collect_tuple()
}

impl RepositoryPath {
    #[verifier::type_invariant]
    spec fn parts_valid(&self) -> bool {
        is_part(self.owner@) && is_part(self.name@)
    }

    /// Reads a repository reference written as `owner/name`.
    ///
    /// The text is accepted when it is two non-empty parts with exactly one
    /// slash between them, and then the result holds those parts. Any other
    /// text is refused with [`RepositoryPathParseError::Invalid`].
    pub fn from_str(s: &str) -> (parsed: Result<RepositoryPath, RepositoryPathParseError>)
        ensures
            parsed is Ok <==> is_reference(s@),
            match parsed {
                Ok(path) => names_repository(s@, path@.owner, path@.name),
                Err(_) => forall|owner: Seq<char>, name: Seq<char>|
                    !names_repository(s@, owner, name),
            },
    {
        let parts = split_slashes(s);
        let ghost pieces = texts(parts@);
        match collect_pair(parts) {
            Some((owner, name)) => {
                proof {
                    assert(joined(pieces) == pieces[0] + seq!['/'] + pieces[1]) by {
                        reveal_with_fuel(joined, 2);
                    }
                    assert(owner@.len() > 0 ==> s@.first() == owner@.first());
                    assert(name@.len() > 0 ==> s@.last() == name@.last());
                }
                if owner.as_str().is_empty() || name.as_str().is_empty() {
                    proof {
                        assert forall|o: Seq<char>, n: Seq<char>| !names_repository(s@, o, n) by {
                            if names_repository(s@, o, n) {
                                lemma_reference_unique(s@, o, n, owner@, name@);
                            }
                        }
                    }
                    Err(RepositoryPathParseError::Invalid)
                } else {
                    Ok(RepositoryPath { owner, name })
                }
            },
            None => {
                proof {
                    assert forall|o: Seq<char>, n: Seq<char>| !names_repository(s@, o, n) by {
                        if names_repository(s@, o, n) {
                            lemma_reference_has_one_slash(s@, o, n);
                        }
                    }
                }
                Err(RepositoryPathParseError::Invalid)
            },
        }
    }

    /// The account that owns the repository.
    pub fn owner(&self) -> (owner: &str)
        ensures
            owner@ == self@.owner,
            is_part(owner@),
    {
        proof {
            use_type_invariant(self);
        }
        self.owner.as_str()
    }

    /// The repository's name under its owner.
    pub fn name(&self) -> (name: &str)
        ensures
            name@ == self@.name,
            is_part(name@),
    {
        proof {
            use_type_invariant(self);
        }
        self.name.as_str()
    }
}

impl Clone for RepositoryPath {
    fn clone(&self) -> (copy: Self)
        ensures
            copy@ == self@,
    {
        proof {
            use_type_invariant(self);
        }
        RepositoryPath { owner: self.owner.clone(), name: self.name.clone() }
    }
}

} // verus!
