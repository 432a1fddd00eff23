//! What holds of every run of an operation.
use crate::program::{Prog, ReplyView, RequestView};
use vstd::prelude::*;

verus! {

// ---------------------------------------------------------------------------
// Whatever the replies are
// ---------------------------------------------------------------------------

/// Whether the program asks for nothing `bad`, whatever the replies are.
pub open spec fn never<A>(prog: Prog<A>, bad: spec_fn(RequestView) -> bool) -> bool
    decreases prog,
{
    match prog {
        Prog::Ask(q, next) => !bad(q) && forall|r: ReplyView| never(#[trigger] next(r), bad),
        _ => true,
    }
}

/// Whether all that the program can come to is `good`, whatever the replies
/// are.
pub open spec fn always<A>(prog: Prog<A>, good: spec_fn(A) -> bool) -> bool
    decreases prog,
{
    match prog {
        Prog::Done(a) => good(a),
        Prog::Ask(_, next) => forall|r: ReplyView| always(#[trigger] next(r), good),
        Prog::Stuck => true,
    }
}

/// What the program still does behind these replies.
pub open spec fn behind<A>(prog: Prog<A>, replies: Seq<ReplyView>) -> Prog<A>
    decreases replies.len(),
{
    if replies.len() == 0 {
        prog
    } else {
        match prog {
            Prog::Ask(_, next) => behind(next(replies[0]), replies.drop_first()),
            _ => Prog::Stuck,
        }
    }
}

/// What the program asks for, given these replies.
pub open spec fn asked<A>(prog: Prog<A>, replies: Seq<ReplyView>) -> Seq<RequestView>
    decreases replies.len(),
{
    match prog {
        Prog::Ask(q, next) => if replies.len() == 0 {
            seq![q]
        } else {
            seq![q] + asked(next(replies[0]), replies.drop_first())
        },
        _ => Seq::empty(),
    }
}

/// Whether some replies bring the program to this.
pub open spec fn outcome<A>(prog: Prog<A>, out: A) -> bool {
    exists|replies: Seq<ReplyView>| #[trigger] behind(prog, replies) == Prog::Done(out)
}

/// What all that a program can come to is, an outcome is.
pub(crate) proof fn lemma_always_behind<A>(
    prog: Prog<A>,
    good: spec_fn(A) -> bool,
    replies: Seq<ReplyView>,
)
    requires
        always(prog, good),
        behind(prog, replies) is Done,
    ensures
        good(behind(prog, replies)->Done_0),
    decreases replies.len(),
{
    if replies.len() != 0 {
        if let Prog::Ask(_, next) = prog {
            lemma_always_behind(next(replies[0]), good, replies.drop_first());
        }
    }
}

/// An outcome of two programs is one of the second behind one of the first.
pub(crate) proof fn lemma_outcome_bind<A, B>(
    prog: Prog<A>,
    next: spec_fn(A) -> Prog<B>,
    replies: Seq<ReplyView>,
) -> (a: A)
    requires
        behind(prog.bind(next), replies) is Done,
    ensures
        outcome(prog, a),
        outcome(next(a), behind(prog.bind(next), replies)->Done_0),
    decreases prog,
{
    match prog {
        Prog::Done(a) => {
            assert(behind(prog, Seq::empty()) == prog);
            assert(behind(next(a), replies) == behind(prog.bind(next), replies));
            a
        },
        Prog::Ask(_, k) => {
            let rest = prog.bind(next)->Ask_1;
            assert(forall|r: ReplyView| #[trigger] rest(r) == k(r).bind(next));
            let r = replies[0];
            let a = lemma_outcome_bind(k(r), next, replies.drop_first());
            let before = choose|before: Seq<ReplyView>| #[trigger]
                behind(k(r), before) == Prog::Done(a);
            let all = seq![r] + before;
            assert(all.drop_first() =~= before);
            assert(behind(prog, all) == behind(k(r), before));
            a
        },
        Prog::Stuck => {
            assert(behind(prog.bind(next), replies) is Stuck);
            arbitrary()
        },
    }
}

/// Two programs that ask for nothing bad do not in turn either.
pub(crate) proof fn lemma_never_bind<A, B>(
    prog: Prog<A>,
    next: spec_fn(A) -> Prog<B>,
    bad: spec_fn(RequestView) -> bool,
)
    requires
        never(prog, bad),
        forall|a: A| never(#[trigger] next(a), bad),
    ensures
        never(prog.bind(next), bad),
    decreases prog,
{
    match prog {
        Prog::Ask(_, k) => {
            let rest = prog.bind(next)->Ask_1;
            assert(forall|r: ReplyView| #[trigger] rest(r) == k(r).bind(next));
            assert forall|r: ReplyView| never(#[trigger] rest(r), bad) by {
                lemma_never_bind(k(r), next, bad);
            }
        },
        _ => {},
    }
}

/// What two programs in turn come to is what the second comes to behind the
/// first.
pub(crate) proof fn lemma_always_bind<A, B>(
    prog: Prog<A>,
    next: spec_fn(A) -> Prog<B>,
    middle: spec_fn(A) -> bool,
    good: spec_fn(B) -> bool,
)
    requires
        always(prog, middle),
        forall|a: A| middle(a) ==> always(#[trigger] next(a), good),
    ensures
        always(prog.bind(next), good),
    decreases prog,
{
    match prog {
        Prog::Ask(_, k) => {
            let rest = prog.bind(next)->Ask_1;
            assert(forall|r: ReplyView| #[trigger] rest(r) == k(r).bind(next));
            assert forall|r: ReplyView| always(#[trigger] rest(r), good) by {
                lemma_always_bind(k(r), next, middle, good);
            }
        },
        _ => {},
    }
}

/// What holds of all results holds of what the program comes to.
pub(crate) proof fn lemma_always_all<A>(prog: Prog<A>, good: spec_fn(A) -> bool)
    requires
        forall|a: A| #[trigger] good(a),
    ensures
        always(prog, good),
    decreases prog,
{
    match prog {
        Prog::Ask(_, k) => {
            assert forall|r: ReplyView| always(#[trigger] k(r), good) by {
                lemma_always_all(k(r), good);
            }
        },
        _ => {},
    }
}

/// What asks for nothing bad in any run asks for nothing bad in this one.
pub(crate) proof fn lemma_never_asked<A>(
    prog: Prog<A>,
    replies: Seq<ReplyView>,
    bad: spec_fn(RequestView) -> bool,
)
    requires
        never(prog, bad),
    ensures
        forall|i: int|
            0 <= i < asked(prog, replies).len() ==> !bad(#[trigger] asked(prog, replies)[i]),
    decreases replies.len(),
{
    match prog {
        Prog::Ask(q, next) => {
            if replies.len() != 0 {
                lemma_never_asked(next(replies[0]), replies.drop_first(), bad);
                let rest = asked(next(replies[0]), replies.drop_first());
                assert forall|i: int| 0 <= i < asked(prog, replies).len() implies !bad(
                    #[trigger] asked(prog, replies)[i],
                ) by {
                    if i > 0 {
                        assert(asked(prog, replies)[i] == rest[i - 1]);
                    }
                }
            }
        },
        _ => {},
    }
}

/// Where the first of two programs is done behind these replies, the two
/// together have asked for the same, and go on with the second.
pub(crate) proof fn lemma_behind_bind<A, B>(
    prog: Prog<A>,
    next: spec_fn(A) -> Prog<B>,
    replies: Seq<ReplyView>,
)
    requires
        behind(prog, replies) is Done,
    ensures
        behind(prog.bind(next), replies) == next(behind(prog, replies)->Done_0),
        next(behind(prog, replies)->Done_0) !is Ask ==> asked(prog.bind(next), replies) == asked(
            prog,
            replies,
        ),
    decreases replies.len(),
{
    if replies.len() != 0 {
        match prog {
            Prog::Ask(_, k) => {
                let rest = prog.bind(next)->Ask_1;
                assert(forall|r: ReplyView| #[trigger] rest(r) == k(r).bind(next));
                lemma_behind_bind(k(replies[0]), next, replies.drop_first());
            },
            _ => {},
        }
    }
}

/// Where the first of two programs is done behind some replies, the two together
/// go on behind them as the second does, and have asked for what each asks for.
pub(crate) proof fn lemma_behind_both<A, B>(
    prog: Prog<A>,
    next: spec_fn(A) -> Prog<B>,
    first: Seq<ReplyView>,
    second: Seq<ReplyView>,
)
    requires
        behind(prog, first) is Done,
    ensures
        behind(prog.bind(next), first + second) == behind(
            next(behind(prog, first)->Done_0),
            second,
        ),
        asked(prog.bind(next), first + second) == asked(prog, first) + asked(
            next(behind(prog, first)->Done_0),
            second,
        ),
    decreases first.len(),
{
    if first.len() == 0 {
        assert(first + second =~= second);
        assert(asked(prog, first) + asked(next(prog->Done_0), second) =~= asked(
            next(prog->Done_0),
            second,
        ));
    } else {
        match prog {
            Prog::Ask(q, k) => {
                let rest = prog.bind(next)->Ask_1;
                assert(forall|r: ReplyView| #[trigger] rest(r) == k(r).bind(next));
                assert((first + second).drop_first() =~= first.drop_first() + second);
                lemma_behind_both(k(first[0]), next, first.drop_first(), second);
                let a = behind(prog, first)->Done_0;
                assert(asked(prog.bind(next), first + second) =~= asked(prog, first) + asked(
                    next(a),
                    second,
                ));
            },
            _ => {},
        }
    }
}

// ---------------------------------------------------------------------------
// Where the replies fit the requests
// ---------------------------------------------------------------------------

/// Whether the run with these replies had the request `q` answered by `r`.
pub open spec fn answered<A>(
    prog: Prog<A>,
    replies: Seq<ReplyView>,
    q: RequestView,
    r: ReplyView,
) -> bool {
    exists|j: int|
        0 <= j < replies.len() && asked(prog, replies)[j] == q && #[trigger] replies[j] == r
}

/// Whether all that the program can come to is `good`, as long as `fits` holds of
/// each request and the reply to it.
pub open spec fn given<A>(
    prog: Prog<A>,
    fits: spec_fn(RequestView, ReplyView) -> bool,
    good: spec_fn(A) -> bool,
) -> bool
    decreases prog,
{
    match prog {
        Prog::Done(a) => good(a),
        Prog::Ask(q, next) => forall|r: ReplyView|
            fits(q, r) ==> given(#[trigger] next(r), fits, good),
        Prog::Stuck => true,
    }
}

/// What two programs in turn come to is what the second comes to behind the
/// first.
pub(crate) proof fn lemma_given_bind<A, B>(
    prog: Prog<A>,
    next: spec_fn(A) -> Prog<B>,
    fits: spec_fn(RequestView, ReplyView) -> bool,
    middle: spec_fn(A) -> bool,
    good: spec_fn(B) -> bool,
)
    requires
        given(prog, fits, middle),
        forall|a: A| middle(a) ==> given(#[trigger] next(a), fits, good),
    ensures
        given(prog.bind(next), fits, good),
    decreases prog,
{
    match prog {
        Prog::Ask(q, k) => {
            let rest = prog.bind(next)->Ask_1;
            assert(forall|r: ReplyView| #[trigger] rest(r) == k(r).bind(next));
            assert forall|r: ReplyView| fits(q, r) implies given(
                #[trigger] rest(r),
                fits,
                good,
            ) by {
                lemma_given_bind(k(r), next, fits, middle, good);
            }
        },
        _ => {},
    }
}

/// What holds of all results holds of what the program comes to.
pub(crate) proof fn lemma_given_all<A>(
    prog: Prog<A>,
    fits: spec_fn(RequestView, ReplyView) -> bool,
    good: spec_fn(A) -> bool,
)
    requires
        forall|a: A| #[trigger] good(a),
    ensures
        given(prog, fits, good),
    decreases prog,
{
    match prog {
        Prog::Ask(_, k) => {
            assert forall|r: ReplyView| given(#[trigger] k(r), fits, good) by {
                lemma_given_all(k(r), fits, good);
            }
        },
        _ => {},
    }
}

/// A run that is done has asked for something before each of its replies.
pub(crate) proof fn lemma_asked_len<A>(prog: Prog<A>, replies: Seq<ReplyView>)
    requires
        behind(prog, replies) is Done,
    ensures
        asked(prog, replies).len() == replies.len(),
    decreases replies.len(),
{
    if replies.len() != 0 {
        if let Prog::Ask(_, next) = prog {
            lemma_asked_len(next(replies[0]), replies.drop_first());
        }
    }
}

/// What holds given that the replies fit holds of a run in which they do.
pub(crate) proof fn lemma_given_behind<A>(
    prog: Prog<A>,
    fits: spec_fn(RequestView, ReplyView) -> bool,
    good: spec_fn(A) -> bool,
    replies: Seq<ReplyView>,
)
    requires
        given(prog, fits, good),
        behind(prog, replies) is Done,
        forall|j: int|
            0 <= j < replies.len() ==> fits(asked(prog, replies)[j], #[trigger] replies[j]),
    ensures
        good(behind(prog, replies)->Done_0),
    decreases replies.len(),
{
    if replies.len() != 0 {
        if let Prog::Ask(q, next) = prog {
            let rest = replies.drop_first();
            lemma_asked_len(next(replies[0]), rest);
            assert(asked(prog, replies)[0] == q);
            assert(fits(q, replies[0]));
            assert forall|j: int| 0 <= j < rest.len() implies fits(
                asked(next(replies[0]), rest)[j],
                #[trigger] rest[j],
            ) by {
                assert(asked(prog, replies)[j + 1] == asked(next(replies[0]), rest)[j]);
                assert(rest[j] == replies[j + 1]);
            }
            lemma_given_behind(next(replies[0]), fits, good, rest);
        }
    }
}

} // verus!
