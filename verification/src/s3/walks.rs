//! What holds of a whole walk through a listing.

use crate::error::StoreError;
use crate::s3::content::{total_size, FileModel};
use crate::s3::paging::{
    DiskUsageModel, DiskUsageStepModel, PageModel, RetrievalModel, RetrievalStepModel,
};
use vstd::prelude::*;

verus! {

/// The records of the pages, one page after another.
pub open spec fn all_files(pages: Seq<PageModel>) -> Seq<FileModel>
    decreases pages.len(),
{
    if pages.len() == 0 {
        Seq::<FileModel>::empty()
    } else {
        pages[0].files + all_files(pages.skip(1))
    }
}

/// The pages as answers of the store.
pub open spec fn answers_of(pages: Seq<PageModel>) -> Seq<Result<PageModel, StoreError>> {
    Seq::new(pages.len(), |i: int| Ok::<PageModel, StoreError>(pages[i]))
}

/// Where a collecting walk stands after the given answers: it takes them one
/// after another until one of them ends it.
pub open spec fn retrieve(
    walk: RetrievalModel,
    answers: Seq<Result<PageModel, StoreError>>,
) -> RetrievalStepModel
    decreases answers.len(),
{
    if answers.len() == 0 {
        RetrievalStepModel::Request(walk)
    } else {
        match walk.absorb(answers[0]) {
            RetrievalStepModel::Request(next) => retrieve(next, answers.skip(1)),
            done => done,
        }
    }
}

/// Where an adding walk stands after the given answers: it takes them one
/// after another until one of them ends it.
pub open spec fn add_up(
    walk: DiskUsageModel,
    answers: Seq<Result<PageModel, StoreError>>,
) -> DiskUsageStepModel
    decreases answers.len(),
{
    if answers.len() == 0 {
        DiskUsageStepModel::Request(walk)
    } else {
        match walk.absorb(answers[0]) {
            DiskUsageStepModel::Request(next) => add_up(next, answers.skip(1)),
            done => done,
        }
    }
}

/// The pages of a listing that the store reports to the end: every page but
/// the last says that more follow, and the last says that none does.
pub open spec fn listed_to_the_end(pages: Seq<PageModel>) -> bool {
    &&& pages.len() > 0
    &&& forall|i: int| 0 <= i < pages.len() - 1 ==> (#[trigger] pages[i]).has_more
    &&& !pages.last().has_more
}

/// The pages of a listing as an adding walk takes it to the end: every page
/// but the last says that more follow and hands out a marker, and the last
/// says that none follows or hands out no marker.
pub open spec fn marked_to_the_end(pages: Seq<PageModel>) -> bool {
    &&& pages.len() > 0
    &&& forall|i: int|
        0 <= i < pages.len() - 1 ==> (#[trigger] pages[i]).has_more
            && pages[i].continuation_token is Some
    &&& !(pages.last().has_more && pages.last().continuation_token is Some)
}

/// The sizes of two runs of records add up.
pub proof fn lemma_total_size_concat(a: Seq<FileModel>, b: Seq<FileModel>)
    ensures
        total_size(a + b) == total_size(a) + total_size(b),
    decreases b.len(),
{
    if b.len() == 0 {
        assert(a + b =~= a);
    } else {
        assert((a + b).drop_last() =~= a + b.drop_last());
        assert((a + b).last() == b.last());
        lemma_total_size_concat(a, b.drop_last());
    }
}

/// A collecting walk through a listing that the store reports to the end
/// ends with every record of every page, in the order in which they came.
pub proof fn lemma_retrieve_all(walk: RetrievalModel, pages: Seq<PageModel>)
    requires
        listed_to_the_end(pages),
    ensures
        retrieve(walk, answers_of(pages)) == RetrievalStepModel::Finished(
            walk.files + all_files(pages),
        ),
    decreases pages.len(),
{
    let answers = answers_of(pages);
    assert(answers[0] == Ok::<PageModel, StoreError>(pages[0]));
    let rest = pages.skip(1);
    if pages.len() == 1 {
        assert(all_files(rest) =~= Seq::<FileModel>::empty());
        assert(all_files(pages) =~= pages[0].files);
    } else {
        assert(pages[0].has_more);
        assert(listed_to_the_end(rest)) by {
            assert forall|i: int| 0 <= i < rest.len() - 1 implies (#[trigger] rest[i]).has_more by {
                assert(rest[i] == pages[i + 1]);
            }
            assert(rest.last() == pages.last());
        }
        let next = RetrievalModel {
            files: walk.files + pages[0].files,
            next_token: pages[0].continuation_token,
        };
        lemma_retrieve_all(next, rest);
        assert(answers.skip(1) =~= answers_of(rest));
        assert(next.files + all_files(rest) =~= walk.files + all_files(pages));
    }
}

/// A failure of the store ends a collecting walk with that failure, whatever
/// was collected before.
pub proof fn lemma_retrieve_fails(
    walk: RetrievalModel,
    pages: Seq<PageModel>,
    e: StoreError,
)
    requires
        forall|i: int| 0 <= i < pages.len() ==> (#[trigger] pages[i]).has_more,
    ensures
        retrieve(walk, answers_of(pages).push(Err(e))) == RetrievalStepModel::Failed(e),
    decreases pages.len(),
{
    let answers = answers_of(pages).push(Err(e));
    if pages.len() == 0 {
        assert(answers[0] == Err::<PageModel, StoreError>(e));
    } else {
        assert(answers[0] == Ok::<PageModel, StoreError>(pages[0]));
        assert(pages[0].has_more);
        let rest = pages.skip(1);
        assert forall|i: int| 0 <= i < rest.len() implies (#[trigger] rest[i]).has_more by {
            assert(rest[i] == pages[i + 1]);
        }
        let next = RetrievalModel {
            files: walk.files + pages[0].files,
            next_token: pages[0].continuation_token,
        };
        lemma_retrieve_fails(next, rest, e);
        assert(answers.skip(1) =~= answers_of(rest).push(Err(e)));
    }
}

/// An adding walk through a listing ends with the exact sum of the sizes and
/// the exact number of the records of all its pages, as long as the totals
/// fit the integers that hold them.
pub proof fn lemma_add_up_all(walk: DiskUsageModel, pages: Seq<PageModel>)
    requires
        marked_to_the_end(pages),
        walk.total_objects + all_files(pages).len() <= u64::MAX,
        walk.total_size_bytes + total_size(all_files(pages)) <= u128::MAX,
    ensures
        add_up(walk, answers_of(pages)) == (DiskUsageStepModel::Finished {
            total_size_bytes: walk.total_size_bytes + total_size(all_files(pages)),
            total_objects: walk.total_objects + all_files(pages).len(),
        }),
    decreases pages.len(),
{
    let answers = answers_of(pages);
    assert(answers[0] == Ok::<PageModel, StoreError>(pages[0]));
    let rest = pages.skip(1);
    lemma_total_size_concat(pages[0].files, all_files(rest));
    if pages.len() == 1 {
        assert(all_files(rest) =~= Seq::<FileModel>::empty());
        assert(all_files(pages) =~= pages[0].files);
    } else {
        assert(pages[0].has_more && pages[0].continuation_token is Some);
        assert(marked_to_the_end(rest)) by {
            assert forall|i: int| 0 <= i < rest.len() - 1 implies (#[trigger] rest[i]).has_more
                && rest[i].continuation_token is Some by {
                assert(rest[i] == pages[i + 1]);
            }
            assert(rest.last() == pages.last());
        }
        let next = DiskUsageModel {
            total_size_bytes: walk.total_size_bytes + total_size(pages[0].files),
            total_objects: walk.total_objects + pages[0].files.len(),
            next_token: pages[0].continuation_token,
        };
        lemma_add_up_all(next, rest);
        assert(answers.skip(1) =~= answers_of(rest));
    }
}

} // verus!
