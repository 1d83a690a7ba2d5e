//! Walking a listing page by page.
//!
//! The store answers a listing request with one page and says whether more
//! pages follow. The functions here decide what to ask for next and what to
//! keep of each answer; sending the requests is left to the caller.

use crate::error::StoreError;
use crate::s3::content::{total_size, FileModel, S3File};
use crate::s3::bucket::file_models;
use crate::s3::{parse_text, ListObjectsResult, ParsedS3Url, UrlModel, UrlParseError};
use crate::text::{clone_text, join, join_with, string_of, text_of};
use vstd::prelude::*;

verus! {

/// The largest number of records asked for in one page.
pub const MAX_KEYS: i32 = 1000;

/// One listing request.
#[derive(Debug)]
pub struct ListRequest {
    pub bucket: String,
    pub prefix: String,
    /// Set where the store is to group keys by common prefixes.
    pub delimiter: Option<String>,
    pub continuation_token: Option<String>,
    pub max_keys: i32,
}

/// What a listing request stands for.
pub struct RequestModel {
    pub bucket: Seq<char>,
    pub prefix: Seq<char>,
    pub delimiter: Option<Seq<char>>,
    pub continuation_token: Option<Seq<char>>,
    pub max_keys: int,
}

impl View for ListRequest {
    type V = RequestModel;

    open spec fn view(&self) -> RequestModel {
        RequestModel {
            bucket: self.bucket@,
            prefix: self.prefix@,
            delimiter: text_of(self.delimiter),
            continuation_token: text_of(self.continuation_token),
            max_keys: self.max_keys as int,
        }
    }
}

/// The key prefix sent to the store for a path: its segments joined by the
/// delimiter and closed by one; empty for the bucket root.
pub open spec fn request_prefix(path_segments: Seq<Seq<char>>, delimiter: char) -> Seq<char> {
    let joined = join(path_segments, seq![delimiter]);
    if joined.len() == 0 {
        joined
    } else {
        joined.push(delimiter)
    }
}

/// The first request for the objects under a parsed address.
pub open spec fn first_request(url: UrlModel, delimiter: char) -> RequestModel {
    RequestModel {
        bucket: url.bucket,
        prefix: request_prefix(url.segments, delimiter),
        delimiter: None,
        continuation_token: None,
        max_keys: MAX_KEYS as int,
    }
}

/// The first request for the objects under `url`: at most `MAX_KEYS` records
/// of its bucket whose keys start with the prefix of its segments.
///
/// Fails where `url` does not parse, with the error of the parser.
pub fn get_list_object_request(url: &String, delimiter: &char) -> (r: Result<
    ListRequest,
    UrlParseError,
>)
    ensures
        match r {
            Ok(request) => parse_text(url@, *delimiter) is Ok && request@ == first_request(
                parse_text(url@, *delimiter)->Ok_0,
                *delimiter,
            ),
            Err(e) => parse_text(url@, *delimiter) == Err::<UrlModel, UrlParseError>(e),
        },
{
    match ParsedS3Url::parse_from(url, delimiter) {
        Ok(parsed) => {
            let mut prefix = join_with(&parsed.segments, *delimiter);
            if prefix.len() > 0 {
                prefix.push(*delimiter);
            }
            Ok(
                ListRequest {
                    bucket: parsed.bucket_name,
                    prefix: string_of(&prefix),
                    delimiter: None,
                    continuation_token: None,
                    max_keys: MAX_KEYS,
                },
            )
        },
        Err(e) => Err(e),
    }
}

/// The request for the common prefixes under `url`: the first request for its
/// objects, with the delimiter set so that the store groups the keys below
/// the prefix by their next segment.
///
/// Fails where `url` does not parse, with the error of the parser.
pub fn get_prefixes_request(url: &String, delimiter: &char) -> (r: Result<
    ListRequest,
    UrlParseError,
>)
    ensures
        match r {
            Ok(request) => parse_text(url@, *delimiter) is Ok && request@ == (RequestModel {
                delimiter: Some(seq![*delimiter]),
                ..first_request(parse_text(url@, *delimiter)->Ok_0, *delimiter)
            }),
            Err(e) => parse_text(url@, *delimiter) == Err::<UrlModel, UrlParseError>(e),
        },
{
    match get_list_object_request(url, delimiter) {
        Ok(first) => {
            let mut text: Vec<char> = Vec::new();
            text.push(*delimiter);
            Ok(
                ListRequest {
                    bucket: first.bucket,
                    prefix: first.prefix,
                    delimiter: Some(string_of(&text)),
                    continuation_token: first.continuation_token,
                    max_keys: first.max_keys,
                },
            )
        },
        Err(e) => Err(e),
    }
}

/// What one answer of the store stands for.
pub struct PageModel {
    pub files: Seq<FileModel>,
    pub continuation_token: Option<Seq<char>>,
    pub has_more: bool,
}

/// The records of a page; none where the store sent no list.
pub open spec fn page_files(objects: Option<Vec<S3File>>) -> Seq<FileModel> {
    match objects {
        Some(v) => file_models(v@),
        None => Seq::<FileModel>::empty(),
    }
}

impl ListObjectsResult {
    /// What this page stands for in a walk.
    pub open spec fn page(self) -> PageModel {
        PageModel {
            files: page_files(self.objects),
            continuation_token: text_of(self.continuation_token),
            has_more: self.has_more,
        }
    }
}

/// What an answer or failure of the store stands for.
pub open spec fn answer_of(answer: Result<ListObjectsResult, StoreError>) -> Result<
    PageModel,
    StoreError,
> {
    match answer {
        Ok(page) => Ok(page.page()),
        Err(e) => Err(e),
    }
}

/// A walk that collects every record: what was collected so far and the
/// marker to send next.
#[derive(Debug)]
pub struct Retrieval {
    pub objects: Vec<S3File>,
    pub next_token: Option<String>,
}

/// What a collecting walk stands for.
pub struct RetrievalModel {
    pub files: Seq<FileModel>,
    pub next_token: Option<Seq<char>>,
}

impl View for Retrieval {
    type V = RetrievalModel;

    open spec fn view(&self) -> RetrievalModel {
        RetrievalModel { files: file_models(self.objects@), next_token: text_of(self.next_token) }
    }
}

/// How a collecting walk goes on after an answer.
#[derive(Debug)]
pub enum RetrievalStep {
    /// More pages follow: send the next request of this walk.
    Request(Retrieval),
    /// The store has no more pages: these are all the records, in the order
    /// in which they came.
    Finished(Vec<S3File>),
    /// The store failed; what was collected is given up.
    Failed(StoreError),
}

/// What a step of a collecting walk stands for.
pub enum RetrievalStepModel {
    Request(RetrievalModel),
    Finished(Seq<FileModel>),
    Failed(StoreError),
}

impl View for RetrievalStep {
    type V = RetrievalStepModel;

    open spec fn view(&self) -> RetrievalStepModel {
        match self {
            RetrievalStep::Request(walk) => RetrievalStepModel::Request(walk@),
            RetrievalStep::Finished(objects) => RetrievalStepModel::Finished(
                file_models(objects@),
            ),
            RetrievalStep::Failed(e) => RetrievalStepModel::Failed(*e),
        }
    }
}

impl RetrievalModel {
    /// The walk before the first request.
    pub open spec fn start() -> RetrievalModel {
        RetrievalModel { files: Seq::<FileModel>::empty(), next_token: None }
    }

    /// The step taken on an answer: a failure ends the walk and gives up what
    /// was collected; a page is appended, and the walk ends when the store
    /// reports that no more pages follow.
    pub open spec fn absorb(self, answer: Result<PageModel, StoreError>) -> RetrievalStepModel {
        match answer {
            Err(e) => RetrievalStepModel::Failed(e),
            Ok(page) => if page.has_more {
                RetrievalStepModel::Request(
                    RetrievalModel {
                        files: self.files + page.files,
                        next_token: page.continuation_token,
                    },
                )
            } else {
                RetrievalStepModel::Finished(self.files + page.files)
            },
        }
    }
}

/// Appends copies of the records of `page` to `objects`.
fn append_files(objects: &mut Vec<S3File>, page: &Vec<S3File>)
    ensures
        file_models(final(objects)@) == file_models(old(objects)@) + file_models(page@),
{
    let mut i: usize = 0;
    assert(file_models(objects@) =~= file_models(old(objects)@) + file_models(page@).take(0));
    while i < page.len()
        invariant
            i <= page.len(),
            file_models(objects@) == file_models(old(objects)@) + file_models(page@).take(
                i as int,
            ),
        decreases page.len() - i,
    {
        let ghost before = file_models(objects@);
        let copy = page[i].duplicate();
        objects.push(copy);
        assert(file_models(objects@) =~= before.push(page@[i as int]@));
        assert(file_models(page@).take(i + 1) =~= file_models(page@).take(i as int).push(
            page@[i as int]@,
        ));
        assert(before.push(page@[i as int]@) =~= file_models(old(objects)@) + file_models(
            page@,
        ).take(i + 1));
        i = i + 1;
    }
    assert(file_models(page@).take(page.len() as int) =~= file_models(page@));
}

impl Retrieval {
    /// The walk before the first request: nothing collected, no marker.
    pub fn start() -> (walk: Retrieval)
        ensures
            walk@ == RetrievalModel::start(),
    {
        let walk = Retrieval { objects: Vec::new(), next_token: None };
        assert(walk@.files =~= Seq::<FileModel>::empty());
        walk
    }

    /// The request to send next: `first` with the marker of this walk.
    pub fn request(&self, first: &ListRequest) -> (r: ListRequest)
        ensures
            r@ == (RequestModel { continuation_token: self@.next_token, ..first@ }),
    {
        ListRequest {
            bucket: first.bucket.clone(),
            prefix: first.prefix.clone(),
            delimiter: clone_text(&first.delimiter),
            continuation_token: clone_text(&self.next_token),
            max_keys: first.max_keys,
        }
    }

    /// Takes the answer to the request sent last and says how the walk goes on.
    pub fn absorb(self, answer: Result<ListObjectsResult, StoreError>) -> (step: RetrievalStep)
        ensures
            step@ == self@.absorb(answer_of(answer)),
    {
        match answer {
            Err(e) => RetrievalStep::Failed(e),
            Ok(page) => {
                let mut objects = self.objects;
                match &page.objects {
                    Some(list) => {
                        append_files(&mut objects, list);
                    },
                    None => {
                        assert(file_models(objects@) =~= file_models(objects@) + Seq::<
                            FileModel,
                        >::empty());
                    },
                }
                if page.has_more {
                    RetrievalStep::Request(
                        Retrieval { objects, next_token: page.continuation_token },
                    )
                } else {
                    RetrievalStep::Finished(objects)
                }
            },
        }
    }
}

/// A walk that only adds up: the bytes and the number of the records seen so
/// far, and the marker to send next.
#[derive(Debug)]
pub struct DiskUsage {
    pub total_size_bytes: u128,
    pub total_objects: u64,
    pub next_token: Option<String>,
}

/// What an adding walk stands for.
pub struct DiskUsageModel {
    pub total_size_bytes: nat,
    pub total_objects: nat,
    pub next_token: Option<Seq<char>>,
}

impl View for DiskUsage {
    type V = DiskUsageModel;

    open spec fn view(&self) -> DiskUsageModel {
        DiskUsageModel {
            total_size_bytes: self.total_size_bytes as nat,
            total_objects: self.total_objects as nat,
            next_token: text_of(self.next_token),
        }
    }
}

/// How an adding walk goes on after an answer.
#[derive(Debug)]
pub enum DiskUsageStep {
    /// More pages follow: send the next request of this walk.
    Request(DiskUsage),
    /// The walk is over: the exact totals of all the records seen.
    Finished { total_size_bytes: u128, total_objects: u64 },
    /// The store failed; the totals so far are given up.
    Failed(StoreError),
    /// The totals no longer fit the integers that hold them.
    Overflow,
}

/// What a step of an adding walk stands for.
pub enum DiskUsageStepModel {
    Request(DiskUsageModel),
    Finished { total_size_bytes: nat, total_objects: nat },
    Failed(StoreError),
    Overflow,
}

impl View for DiskUsageStep {
    type V = DiskUsageStepModel;

    open spec fn view(&self) -> DiskUsageStepModel {
        match self {
            DiskUsageStep::Request(walk) => DiskUsageStepModel::Request(walk@),
            DiskUsageStep::Finished { total_size_bytes, total_objects } => {
                DiskUsageStepModel::Finished {
                    total_size_bytes: *total_size_bytes as nat,
                    total_objects: *total_objects as nat,
                }
            },
            DiskUsageStep::Failed(e) => DiskUsageStepModel::Failed(*e),
            DiskUsageStep::Overflow => DiskUsageStepModel::Overflow,
        }
    }
}

impl DiskUsageModel {
    /// The walk before the first request.
    pub open spec fn start() -> DiskUsageModel {
        DiskUsageModel { total_size_bytes: 0, total_objects: 0, next_token: None }
    }

    /// The step taken on an answer: a failure ends the walk; a page adds the
    /// sizes and the number of its records to the totals, and the walk ends
    /// when the store reports no more pages or hands out no marker.
    pub open spec fn absorb(self, answer: Result<PageModel, StoreError>) -> DiskUsageStepModel {
        match answer {
            Err(e) => DiskUsageStepModel::Failed(e),
            Ok(page) => {
                let bytes = self.total_size_bytes + total_size(page.files);
                let count = self.total_objects + page.files.len();
                if count > u64::MAX || bytes > u128::MAX {
                    DiskUsageStepModel::Overflow
                } else if page.has_more && page.continuation_token is Some {
                    DiskUsageStepModel::Request(
                        DiskUsageModel {
                            total_size_bytes: bytes,
                            total_objects: count,
                            next_token: page.continuation_token,
                        },
                    )
                } else {
                    DiskUsageStepModel::Finished { total_size_bytes: bytes, total_objects: count }
                }
            },
        }
    }
}

/// The exact sum of the sizes of `files`.
pub fn sum_sizes(files: &Vec<S3File>) -> (total: u128)
    ensures
        total == total_size(file_models(files@)),
{
    let ghost all = file_models(files@);
    let mut total: u128 = 0;
    let mut i: usize = 0;
    while i < files.len()
        invariant
            i <= files.len(),
            all == file_models(files@),
            total == total_size(all.take(i as int)),
            total <= i * u64::MAX,
        decreases files.len() - i,
    {
        assert(all.take(i + 1).drop_last() == all.take(i as int));
        assert(all.take(i + 1).last() == files@[i as int]@);
        assert(i * u64::MAX + u64::MAX == (i + 1) * u64::MAX) by (nonlinear_arith);
        assert((i + 1) * u64::MAX <= usize::MAX * u64::MAX) by (nonlinear_arith)
            requires
                i + 1 <= usize::MAX,
        ;
        total = total + (files[i].size as u128);
        i = i + 1;
    }
    assert(all.take(files.len() as int) == all);
    total
}

impl DiskUsage {
    /// The walk before the first request: nothing seen, no marker.
    pub fn start() -> (walk: DiskUsage)
        ensures
            walk@ == DiskUsageModel::start(),
    {
        DiskUsage { total_size_bytes: 0, total_objects: 0, next_token: None }
    }

    /// The request to send next: `first` with the marker of this walk.
    pub fn request(&self, first: &ListRequest) -> (r: ListRequest)
        ensures
            r@ == (RequestModel { continuation_token: self@.next_token, ..first@ }),
    {
        ListRequest {
            bucket: first.bucket.clone(),
            prefix: first.prefix.clone(),
            delimiter: clone_text(&first.delimiter),
            continuation_token: clone_text(&self.next_token),
            max_keys: first.max_keys,
        }
    }

    /// Takes the answer to the request sent last and says how the walk goes on.
    pub fn absorb(self, answer: Result<ListObjectsResult, StoreError>) -> (step: DiskUsageStep)
        ensures
            step@ == self@.absorb(answer_of(answer)),
    {
        match answer {
            Err(e) => DiskUsageStep::Failed(e),
            Ok(page) => {
                let (page_bytes, page_count): (u128, usize) = match &page.objects {
                    Some(list) => (sum_sizes(list), list.len()),
                    None => (0, 0),
                };
                assert(page_bytes == total_size(page.page().files));
                assert(page_count == page.page().files.len());
                let count = match self.total_objects.checked_add(page_count as u64) {
                    Some(count) => count,
                    None => {
                        return DiskUsageStep::Overflow;
                    },
                };
                let bytes = match self.total_size_bytes.checked_add(page_bytes) {
                    Some(bytes) => bytes,
                    None => {
                        return DiskUsageStep::Overflow;
                    },
                };
                if page.has_more && page.continuation_token.is_some() {
                    DiskUsageStep::Request(
                        DiskUsage {
                            total_size_bytes: bytes,
                            total_objects: count,
                            next_token: page.continuation_token,
                        },
                    )
                } else {
                    DiskUsageStep::Finished { total_size_bytes: bytes, total_objects: count }
                }
            },
        }
    }
}

} // verus!
