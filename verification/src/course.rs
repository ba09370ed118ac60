//! The course of a reconciliation: which calls are made, in which order, and
//! how the work ends, for any sequence of replies that the forge may give.

use crate::applier::ActionView;
use crate::forge::{create_call, update_call, CallView, ReplyView};
use crate::label::LabelView;
use crate::reconciler::ReconcilerView;
use crate::repository::RepositoryView;
use vstd::prelude::*;

verus! {

/// The calls made so far, in order, and how the work ended, if it has.
pub struct Course {
    pub calls: Seq<CallView>,
    pub result: Option<Result<(), Seq<char>>>,
}

impl Course {
    /// This course, with `earlier` calls made before it.
    pub open spec fn preceded_by(self, earlier: Seq<CallView>) -> Course {
        Course { calls: earlier + self.calls, result: self.result }
    }
}

/// The course that a reconciler in `state` takes when the forge answers its
/// calls with `replies`, the first call with the first reply and so on. The
/// call that awaits the reply after the last of `replies` is part of the
/// course; replies that come after the work has ended are not looked at.
pub open spec fn course(state: ReconcilerView, replies: Seq<ReplyView>) -> Course
    decreases replies.len(),
{
    match state.pending() {
        ActionView::Finish(result) => Course { calls: Seq::empty(), result: Some(result) },
        ActionView::Call(call) => if replies.len() == 0 {
            Course { calls: seq![call], result: None }
        } else {
            course(state.on_reply(replies[0]), replies.drop_first()).preceded_by(seq![call])
        },
    }
}

/// The state of a reconciler after it has taken `replies`, one after the
/// other.
pub open spec fn state_after(state: ReconcilerView, replies: Seq<ReplyView>) -> ReconcilerView
    decreases replies.len(),
{
    if replies.len() == 0 {
        state
    } else {
        state_after(state.on_reply(replies[0]), replies.drop_first())
    }
}

/// The course that applying `labels` to `repository` one after the other
/// takes, read off the labels directly.
///
/// Each label begins with its creation. When that succeeds the next label
/// follows. When it fails the update of the same label follows; when that
/// succeeds the next label follows, and when it fails the work ends there
/// with the update's failure, and no later label is touched. When the labels
/// are used up the work ends well.
pub open spec fn prescribed(
    repository: RepositoryView,
    labels: Seq<LabelView>,
    replies: Seq<ReplyView>,
) -> Course
    decreases labels.len(),
{
    if labels.len() == 0 {
        Course { calls: Seq::empty(), result: Some(Ok(())) }
    } else {
        let create = create_call(repository, labels[0]);
        let update = update_call(repository, labels[0]);
        if replies.len() == 0 {
            Course { calls: seq![create], result: None }
        } else if replies[0] is Succeeded {
            prescribed(repository, labels.drop_first(), replies.drop_first()).preceded_by(
                seq![create],
            )
        } else if replies.len() == 1 {
            Course { calls: seq![create, update], result: None }
        } else {
            match replies[1] {
                ReplyView::Succeeded => prescribed(
                    repository,
                    labels.drop_first(),
                    replies.skip(2),
                ).preceded_by(seq![create, update]),
                ReplyView::Failed(detail) => Course {
                    calls: seq![create, update],
                    result: Some(Err(detail)),
                },
            }
        }
    }
}

/// A reconciler that stands at the beginning of a label takes the course
/// prescribed for the labels from there on.
proof fn lemma_course_from(state: ReconcilerView, replies: Seq<ReplyView>)
    requires
        state.wf(),
        state.phase is Creating,
    ensures
        course(state, replies) == prescribed(
            state.repository,
            state.labels.skip(state.position as int),
            replies,
        ),
    decreases state.labels.len() - state.position,
{
    let rest = state.labels.skip(state.position as int);
    if state.position < state.labels.len() {
        let create = create_call(state.repository, rest[0]);
        let update = update_call(state.repository, rest[0]);
        assert(rest.drop_first() =~= state.labels.skip((state.position + 1) as int));
        if replies.len() > 0 {
            let second = state.on_reply(replies[0]);
            let later = replies.drop_first();
            if replies[0] is Succeeded {
                lemma_course_from(second, later);
            } else if later.len() == 0 {
                assert(course(second, later).calls =~= seq![update]);
                assert(seq![create] + seq![update] =~= seq![create, update]);
            } else {
                let third = second.on_reply(later[0]);
                let last = later.drop_first();
                assert(last =~= replies.skip(2));
                match later[0] {
                    ReplyView::Succeeded => {
                        lemma_course_from(third, last);
                        assert(seq![create] + (seq![update] + course(third, last).calls)
                            =~= seq![create, update] + course(third, last).calls);
                    },
                    ReplyView::Failed(detail) => {
                        assert(course(third, last).calls =~= Seq::<CallView>::empty());
                        assert(seq![create] + (seq![update] + Seq::<CallView>::empty())
                            =~= seq![create, update]);
                    },
                }
            }
        }
    } else {
        assert(rest =~= Seq::<LabelView>::empty());
    }
}

/// The calls of a reconciliation are those that the labels prescribe, in
/// the order of the labels: none is left out, moved or put between the
/// calls of another label, whatever the forge replies. The work also ends
/// as prescribed.
pub proof fn lemma_course_is_prescribed(
    repository: RepositoryView,
    labels: Seq<LabelView>,
    replies: Seq<ReplyView>,
)
    ensures
        course(ReconcilerView::start(repository, labels), replies) == prescribed(
            repository,
            labels,
            replies,
        ),
{
    let state = ReconcilerView::start(repository, labels);
    assert(labels.skip(0) =~= labels);
    lemma_course_from(state, replies);
}

/// When the creation of a label fails, for whatever reason, the reconciler
/// asks next for the update of that same label: under the label's derived
/// name, keeping that name, with the label's colour and description.
pub proof fn lemma_failed_create_leads_to_update(state: ReconcilerView, detail: Seq<char>)
    requires
        state.wf(),
        state.position < state.labels.len(),
        state.phase is Creating,
    ensures
        state.pending() == ActionView::Call(
            create_call(state.repository, state.labels[state.position as int]),
        ),
        state.on_reply(ReplyView::Failed(detail)).pending() == ActionView::Call(
            update_call(state.repository, state.labels[state.position as int]),
        ),
        state.on_reply(ReplyView::Failed(detail)).position == state.position,
{
}

/// When the update fails after the creation has failed, the work ends with
/// the update's failure as its error, and it stays ended: whatever replies
/// follow, no further call is made and no later label is attempted.
pub proof fn lemma_failed_update_ends_work(
    state: ReconcilerView,
    detail: Seq<char>,
    later: Seq<ReplyView>,
)
    requires
        state.wf(),
        state.position < state.labels.len(),
        state.phase is Updating,
    ensures
        state.on_reply(ReplyView::Failed(detail)).pending() == ActionView::Finish(
            Err::<(), Seq<char>>(detail),
        ),
        state_after(state.on_reply(ReplyView::Failed(detail)), later) == state.on_reply(
            ReplyView::Failed(detail),
        ),
        course(state.on_reply(ReplyView::Failed(detail)), later) == (Course {
            calls: Seq::empty(),
            result: Some(Err(detail)),
        }),
    decreases later.len(),
{
    let failed = state.on_reply(ReplyView::Failed(detail));
    if later.len() > 0 {
        assert(failed.on_reply(later[0]) == failed);
        lemma_failed_update_ends_work(state, detail, later.drop_first());
    }
}

/// When the forge accepts every creation, the calls are the creations of
/// the labels, one for each label and in their order, and the work ends
/// well.
pub proof fn lemma_all_created(
    repository: RepositoryView,
    labels: Seq<LabelView>,
    replies: Seq<ReplyView>,
)
    requires
        replies.len() == labels.len(),
        forall|i: int| 0 <= i < replies.len() ==> replies[i] is Succeeded,
    ensures
        prescribed(repository, labels, replies) == (Course {
            calls: Seq::new(labels.len(), |i: int| create_call(repository, labels[i])),
            result: Some(Ok(())),
        }),
    decreases labels.len(),
{
    let creations = Seq::new(labels.len(), |i: int| create_call(repository, labels[i]));
    if labels.len() == 0 {
        assert(creations =~= Seq::<CallView>::empty());
    } else {
        let rest = labels.drop_first();
        lemma_all_created(repository, rest, replies.drop_first());
        let later = Seq::new(rest.len(), |i: int| create_call(repository, rest[i]));
        assert(seq![create_call(repository, labels[0])] + later =~= creations);
    }
}

/// Applying one sequence of labels and then another is applying the first
/// and, when that has ended well, applying the second with the replies that
/// are left; when the first has not ended well, nothing of the second is
/// attempted. A run over several categories is thus the reconciliation of
/// each in turn, up to the first that fails.
pub proof fn lemma_prescribed_concat(
    repository: RepositoryView,
    first: Seq<LabelView>,
    second: Seq<LabelView>,
    replies: Seq<ReplyView>,
)
    ensures
        prescribed(repository, first, replies).result is Some ==> prescribed(
            repository,
            first,
            replies,
        ).calls.len() <= replies.len(),
        prescribed(repository, first, replies).result == Some(Ok::<(), Seq<char>>(()))
            ==> prescribed(repository, first + second, replies) == prescribed(
            repository,
            second,
            replies.skip(prescribed(repository, first, replies).calls.len() as int),
        ).preceded_by(prescribed(repository, first, replies).calls),
        prescribed(repository, first, replies).result != Some(Ok::<(), Seq<char>>(()))
            ==> prescribed(repository, first + second, replies) == prescribed(
            repository,
            first,
            replies,
        ),
    decreases first.len(),
{
    let begun = prescribed(repository, first, replies);
    let whole = prescribed(repository, first + second, replies);
    if first.len() == 0 {
        assert(first + second =~= second);
        assert(replies.skip(0) =~= replies);
        assert(Seq::<CallView>::empty() + prescribed(repository, second, replies).calls
            =~= prescribed(repository, second, replies).calls);
    } else {
        let create = create_call(repository, first[0]);
        let update = update_call(repository, first[0]);
        let rest = first.drop_first();
        assert((first + second)[0] == first[0]);
        assert((first + second).drop_first() =~= rest + second);
        if replies.len() == 0 {
        } else if replies[0] is Succeeded {
            let later = replies.drop_first();
            let inner = prescribed(repository, rest, later);
            lemma_prescribed_concat(repository, rest, second, later);
            if inner.result == Some(Ok::<(), Seq<char>>(())) {
                let tail = prescribed(repository, second, later.skip(inner.calls.len() as int));
                assert(later.skip(inner.calls.len() as int) =~= replies.skip(
                    begun.calls.len() as int,
                ));
                assert(seq![create] + (inner.calls + tail.calls) =~= (seq![create] + inner.calls)
                    + tail.calls);
            }
        } else if replies.len() == 1 {
        } else {
            match replies[1] {
                ReplyView::Succeeded => {
                    let later = replies.skip(2);
                    let inner = prescribed(repository, rest, later);
                    lemma_prescribed_concat(repository, rest, second, later);
                    if inner.result == Some(Ok::<(), Seq<char>>(())) {
                        let tail = prescribed(
                            repository,
                            second,
                            later.skip(inner.calls.len() as int),
                        );
                        assert(later.skip(inner.calls.len() as int) =~= replies.skip(
                            begun.calls.len() as int,
                        ));
                        assert(seq![create, update] + (inner.calls + tail.calls) =~= (seq![
                            create,
                            update,
                        ] + inner.calls) + tail.calls);
                    }
                },
                ReplyView::Failed(_) => {},
            }
        }
    }
}

} // verus!
