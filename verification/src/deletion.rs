//! The deletion of a directory with all that it holds, page by page.

use crate::address;
use crate::answer;
use crate::error::AzdlsError;
use crate::message;
use crate::message::HeadView;
use crate::message::Method;
use crate::message::RequestHead;
use crate::operations;
use crate::operations::AzdlsCore;
use http::HeaderMap;
use http::Request;
use opendal_core::raw::Operation;
use opendal_core::raw::QueryPairsWriter;
use opendal_core::Buffer;
use vstd::prelude::*;
use vstd::string::*;

verus! {

/// What to do after an answer.
#[derive(Clone, Copy, Debug, PartialEq, Eq, Structural)]
pub enum Step {
    /// Ask for the next page.
    Next,
    /// The deletion is complete.
    Done,
    /// The service refused.
    Failed,
}

/// A recursive deletion: the address of the path, and where the next page starts.
#[derive(Debug)]
pub struct RecursiveDelete {
    pub base: String,
    pub enable_hns: bool,
    pub continuation: String,
}

/// Whether a status reports that a page was deleted, will be, or is not there.
pub open spec fn accepted(status: u16) -> bool {
    status == 200 || status == 202 || status == 404
}

/// What to do after an answer with this status that tells where the next page starts.
pub open spec fn step_after(status: u16, next: Seq<char>) -> Step {
    if !accepted(status) {
        Step::Failed
    } else if next.len() == 0 {
        Step::Done
    } else {
        Step::Next
    }
}

/// How a deletion takes an answer with this status that tells where the next page starts: only
/// that place changes, and only where there is a next page to ask for.
pub open spec fn advanced(
    before: RecursiveDelete,
    status: u16,
    next: Seq<char>,
    after: RecursiveDelete,
    step: Step,
) -> bool {
    &&& step == step_after(status, next)
    &&& after.base@ == before.base@
    &&& after.enable_hns == before.enable_hns
    &&& after.continuation@ == if step == Step::Next {
        next
    } else {
        before.continuation@
    }
}

impl RecursiveDelete {
    /// The request for a page, where it starts given.
    pub open spec fn page_view(base: Seq<char>, hns: bool, continuation: Seq<char>) -> HeadView {
        HeadView {
            method: Method::Delete,
            url: address::with_query(base, operations::delete_query(hns, continuation)),
            headers: seq![],
            operation: Operation::Delete,
            service_operation: "RecursiveDeletePath"@,
        }
    }

    /// The request for the next page.
    pub open spec fn next_view(&self) -> HeadView {
        Self::page_view(self.base@, self.enable_hns, self.continuation@)
    }

    /// The request for the next page, before it is built.
    pub fn page_request(&self) -> (r: RequestHead)
        ensures
            r@ == self.next_view(),
    {
        let ghost b = self.base@;
        let ghost mut pairs: Seq<(Seq<char>, Seq<char>)> = seq![];
        let mut url = QueryPairsWriter::new(self.base.as_str());
        url = operations::push_query(url, "recursive", "true", Ghost(b), Ghost(pairs));
        proof {
            pairs = pairs.push(("recursive"@, "true"@));
        }
        if self.enable_hns {
            url = operations::push_query(url, "paginated", "true", Ghost(b), Ghost(pairs));
            proof {
                pairs = pairs.push(("paginated"@, "true"@));
            }
        }
        if !self.continuation.as_str().is_empty() {
            let token = opendal_core::raw::percent_encode_path(self.continuation.as_str());
            url =
            operations::push_query(url, "continuation", token.as_str(), Ghost(b), Ghost(pairs));
            proof {
                pairs = pairs.push(("continuation"@, token@));
            }
        }
        let r = RequestHead {
            method: Method::Delete,
            url: url.finish(),
            headers: Vec::new(),
            operation: Operation::Delete,
            service_operation: "RecursiveDeletePath",
        };
        proof {
            assert(pairs =~= operations::delete_query(self.enable_hns, self.continuation@));
            assert(r@.headers =~= seq![]);
        }
        r
    }

    /// The request for the next page.
    pub fn request(&self) -> (r: Result<Request<Buffer>, AzdlsError>)
        ensures
            message::build_result(self.next_view(), seq![], r),
    {
        self.page_request().build(Buffer::new())
    }

    /// Takes the answer to the request for a page, and says what to do next.
    pub fn advance(&mut self, status: u16, headers: &HeaderMap) -> (r: Step)
        ensures
            advanced(
                *old(self),
                status,
                answer::next_page(answer::header_map(*headers)),
                *final(self),
                r,
            ),
    {
        if !(status == 200 || status == 202 || status == 404) {
            return Step::Failed;
        }
        let next = answer::read_continuation(headers);
        if next.as_str().is_empty() {
            return Step::Done;
        }
        self.continuation = next;
        Step::Next
    }
}

impl AzdlsCore {
    /// Starts the deletion of a path with all that it holds. The first page starts nowhere in
    /// particular.
    pub fn azdls_recursive_delete(&self, path: &str) -> (r: RecursiveDelete)
        requires
            self.wf(),
            address::relative(path@),
        ensures
            r.base@ == self.trimmed_url(path@),
            r.enable_hns == self.enable_hns,
            r.continuation@ == Seq::<char>::empty(),
    {
        let p = self.trimmed_path(path);
        RecursiveDelete {
            base: self.address_text(p.as_str()),
            enable_hns: self.enable_hns,
            continuation: String::new(),
        }
    }
}

/// How a deletion goes, for the status of each answer and where each says that the next page
/// starts: the requests sent, and what came of it. `Step::Next` says that more answers are
/// needed.
pub open spec fn run(
    base: Seq<char>,
    hns: bool,
    continuation: Seq<char>,
    answers: Seq<(u16, Seq<char>)>,
) -> (Seq<HeadView>, Step)
    decreases answers.len(),
{
    let page = RecursiveDelete::page_view(base, hns, continuation);
    if answers.len() == 0 {
        (seq![page], Step::Next)
    } else {
        match step_after(answers[0].0, answers[0].1) {
            Step::Next => {
                let rest = run(base, hns, answers[0].1, answers.skip(1));
                (seq![page] + rest.0, rest.1)
            },
            step => (seq![page], step),
        }
    }
}

impl RecursiveDelete {
    /// How the deletion goes on from here.
    pub open spec fn run_from(self, answers: Seq<(u16, Seq<char>)>) -> (Seq<HeadView>, Step) {
        run(self.base@, self.enable_hns, self.continuation@, answers)
    }
}

/// How a deletion goes is how its steps go. The first request is the one that it has ready. An
/// answer after which it goes on leaves the next request ready, and what follows is how the
/// deletion goes from there; an answer after which it does not ends it.
pub proof fn law_run_follows_steps(
    before: RecursiveDelete,
    status: u16,
    next: Seq<char>,
    after: RecursiveDelete,
    step: Step,
    later: Seq<(u16, Seq<char>)>,
)
    requires
        advanced(before, status, next, after, step),
    ensures
        before.run_from(seq![]) == (seq![before.next_view()], Step::Next),
        before.run_from(seq![(status, next)] + later) == match step {
            Step::Next => (
                seq![before.next_view()] + after.run_from(later).0,
                after.run_from(later).1,
            ),
            end => (seq![before.next_view()], end),
        },
        after.run_from(later).0.len() > 0,
        after.run_from(later).0[0] == after.next_view(),
{
    let answers = seq![(status, next)] + later;
    assert(answers[0] == (status, next));
    assert(answers.skip(1) =~= later);
}

/// As long as each answer is a success that names a next page, the deletion goes on: the first
/// request names no page, and each further one names the page that the answer before it named.
pub proof fn law_pages_follow_answers(
    base: Seq<char>,
    hns: bool,
    continuation: Seq<char>,
    answers: Seq<(u16, Seq<char>)>,
)
    requires
        forall|i: int|
            0 <= i < answers.len() ==> {
                let a = #[trigger] answers[i];
                accepted(a.0) && a.1.len() > 0
            },
    ensures
        run(base, hns, continuation, answers).1 == Step::Next,
        run(base, hns, continuation, answers).0.len() == answers.len() + 1,
        run(base, hns, continuation, answers).0[0] == RecursiveDelete::page_view(
            base,
            hns,
            continuation,
        ),
        forall|i: int|
            0 <= i < answers.len() ==> run(base, hns, continuation, answers).0[i + 1]
                == RecursiveDelete::page_view(base, hns, (#[trigger] answers[i]).1),
    decreases answers.len(),
{
    if answers.len() > 0 {
        let a0 = answers[0];
        let rest = answers.skip(1);
        assert forall|i: int| 0 <= i < rest.len() implies ({
            let a = #[trigger] rest[i];
            accepted(a.0) && a.1.len() > 0
        }) by {
            assert(rest[i] == answers[i + 1]);
        }
        law_pages_follow_answers(base, hns, a0.1, rest);
        let all = run(base, hns, continuation, answers).0;
        let later = run(base, hns, a0.1, rest).0;
        assert forall|i: int| 0 <= i < answers.len() implies all[i + 1]
            == RecursiveDelete::page_view(base, hns, (#[trigger] answers[i]).1) by {
            assert(all[i + 1] == later[i]);
            if i > 0 {
                assert(answers[i] == rest[i - 1]);
                assert(later[i - 1 + 1] == RecursiveDelete::page_view(base, hns, rest[i - 1].1));
            }
        }
    }
}

/// The first answer that does not ask for another page ends the deletion, whatever would follow:
/// in success where its status is one, in failure elsewhere.
pub proof fn law_deletion_ends(
    base: Seq<char>,
    hns: bool,
    continuation: Seq<char>,
    answers: Seq<(u16, Seq<char>)>,
    k: int,
)
    requires
        0 <= k < answers.len(),
        forall|i: int|
            0 <= i < k ==> {
                let a = #[trigger] answers[i];
                accepted(a.0) && a.1.len() > 0
            },
        !accepted(answers[k].0) || answers[k].1.len() == 0,
    ensures
        run(base, hns, continuation, answers).0.len() == k + 1,
        run(base, hns, continuation, answers).1 == if accepted(answers[k].0) {
            Step::Done
        } else {
            Step::Failed
        },
    decreases k,
{
    if k > 0 {
        let rest = answers.skip(1);
        assert(accepted(answers[0].0) && answers[0].1.len() > 0);
        assert forall|i: int| 0 <= i < k - 1 implies ({
            let a = #[trigger] rest[i];
            accepted(a.0) && a.1.len() > 0
        }) by {
            assert(rest[i] == answers[i + 1]);
        }
        assert(rest[k - 1] == answers[k]);
        law_deletion_ends(base, hns, answers[0].1, rest, k - 1);
    }
}

/// Under an ordinary endpoint and filesystem, every page of every deletion can be asked for, at
/// the very address, as long as it is no longer than a URI may be.
pub proof fn law_deletion_builds(
    core: &AzdlsCore,
    scheme: Seq<char>,
    host: Seq<char>,
    path: Seq<char>,
    continuation: Seq<char>,
)
    requires
        operations::ordinary(core, scheme, host),
    ensures
        operations::certain(
            RecursiveDelete::page_view(core.trimmed_url(path), core.enable_hns, continuation),
        ),
{
    operations::law_pages_build(core, scheme, host, path, continuation, None);
}

} // verus!
