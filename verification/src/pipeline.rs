//! The per-file processing pipeline: parse every source header, then merge
//! each source's compile outcome and extracted code into one code record per
//! source, in discovery order, accumulating every error across the batch
//! rather than failing fast.

use crate::codes::Code;
use crate::extract::{
    extract_err_matches, extract_object, extracted_code, extraction_ok, ExtractError,
};
use crate::header::{header_spec, parse_header, HeaderError};
use vstd::prelude::*;

verus! {

/// What the surrounding process hands the pipeline for one source file:
/// the file's leading bytes (at most the lookahead window), its last byte
/// (any value for an empty file — the empty window already fails with
/// `MissingAddress`), and the compiled object's bytes, or `None` when the
/// assembler exited with a failure status.
pub struct SourceOutcome {
    pub header: Vec<u8>,
    pub last_byte: u8,
    pub object: Option<Vec<u8>>,
}

/// Why one source file failed.
#[derive(Debug)]
pub enum SourceError {
    /// Its header was rejected.
    Header(HeaderError),
    /// The assembler exited with a failure status.
    CompileFailed,
    /// Its compiled object was rejected.
    Extract(ExtractError),
}

/// One failed source, by its index in the batch.
#[derive(Debug)]
pub struct SourceIssue {
    pub index: usize,
    pub error: SourceError,
}

/// The batch result: one code record per source (in discovery order) when
/// every header parsed, every error found, and the advisory warnings —
/// per-file undefined symbol names and the sources that produced no code.
pub struct ProcessOutput {
    pub codes: Vec<Code>,
    pub errors: Vec<SourceIssue>,
    pub undefined: Vec<(usize, Vec<String>)>,
    pub empty_sources: Vec<usize>,
}

pub open spec fn source_header_result(s: SourceOutcome) -> Result<u32, HeaderError> {
    header_spec(s.header@, s.last_byte)
}

pub open spec fn headers_all_ok(ss: Seq<SourceOutcome>) -> bool {
    forall|i: int| 0 <= i < ss.len() ==> (#[trigger] source_header_result(ss[i])) is Ok
}

/// An issue entry is truthful: it names a real source, and what it reports
/// did happen to that source — a header issue carries that header's exact
/// error, a compile failure names a source whose object is missing, and an
/// extraction issue names the defect its object's contents owe.
pub open spec fn issue_valid(ss: Seq<SourceOutcome>, e: SourceIssue) -> bool {
    &&& 0 <= e.index < ss.len()
    &&& match e.error {
        SourceError::Header(h) => source_header_result(ss[e.index as int]) == Err::<
            u32,
            HeaderError,
        >(h),
        SourceError::CompileFailed => ss[e.index as int].object is None,
        SourceError::Extract(x) => match ss[e.index as int].object {
            Some(obj) => extract_err_matches(obj@, x),
            None => false,
        },
    }
}

pub open spec fn has_issue(es: Seq<SourceIssue>, i: int, err: SourceError) -> bool {
    exists|k: int| 0 <= k < es.len() && (#[trigger] es[k]).index == i && es[k].error == err
}

/// Some extraction issue is recorded for source `i` (its message is the
/// outside parser's and is not pinned here).
pub open spec fn has_extract_issue(es: Seq<SourceIssue>, i: int) -> bool {
    exists|k: int| 0 <= k < es.len() && (#[trigger] es[k]).index == i && es[k].error is Extract
}

/// Source `t` is one that compiled and extracted cleanly but produced no
/// code: it is kept in the result set and only warned about.
pub open spec fn empty_source_at(ss: Seq<SourceOutcome>, t: int) -> bool {
    match ss[t].object {
        Some(obj) => extraction_ok(obj@) && extracted_code(obj@).len() == 0,
        None => false,
    }
}

proof fn lemma_push_keeps_issues(before: Seq<SourceIssue>, after: Seq<SourceIssue>)
    requires
        before.len() < after.len(),
        forall|k: int| 0 <= k < before.len() ==> after[k] == before[k],
    ensures
        forall|t: int, e: SourceError|
            #[trigger] has_issue(before, t, e) ==> has_issue(after, t, e),
        forall|t: int| #[trigger] has_extract_issue(before, t) ==> has_extract_issue(after, t),
{
    assert forall|t: int, e: SourceError| #[trigger] has_issue(before, t, e) implies has_issue(
        after,
        t,
        e,
    ) by {
        let k = choose|k: int|
            0 <= k < before.len() && (#[trigger] before[k]).index == t && before[k].error == e;
        assert(after[k].index == t && after[k].error == e);
    }
    assert forall|t: int| #[trigger] has_extract_issue(before, t) implies has_extract_issue(
        after,
        t,
    ) by {
        let k = choose|k: int|
            0 <= k < before.len() && (#[trigger] before[k]).index == t && before[k].error
                is Extract;
        assert(after[k].index == t && after[k].error is Extract);
    }
}

proof fn lemma_push_contains(s: Seq<usize>, v: usize)
    ensures
        forall|x: usize| #[trigger] s.push(v).contains(x) <==> s.contains(x) || x == v,
{
    assert forall|x: usize| #[trigger] s.push(v).contains(x) implies (s.contains(x) || x == v) by {
        let k = choose|k: int| 0 <= k < s.push(v).len() && s.push(v)[k] == x;
        if k < s.len() {
            assert(s[k] == x);
        }
    }
    assert forall|x: usize| s.contains(x) || x == v implies #[trigger] s.push(v).contains(x) by {
        if s.contains(x) {
            let k = choose|k: int| 0 <= k < s.len() && s[k] == x;
            assert(s.push(v)[k] == x);
        } else {
            assert(s.push(v)[s.len() as int] == x);
        }
    }
}

proof fn lemma_bounded_absent(s: Seq<usize>, j: usize)
    requires
        forall|k: int| 0 <= k < s.len() ==> (#[trigger] s[k]) < j,
    ensures
        !s.contains(j),
{
    if s.contains(j) {
        let k = choose|k: int| 0 <= k < s.len() && s[k] == j;
        assert(s[k] < j);
    }
}

/// Process the whole batch: parse every header first (a batch with any
/// rejected header is abandoned before objects are read, as the runs of the
/// external assembler are), then harvest every compile outcome in source
/// order, extracting each object's `.text` into its record. Errors are
/// accumulated across all sources; warnings never fail a source.
///
/// When every header parses: each record carries its header's address and,
/// for a cleanly extracted object, exactly that object's `.text` bytes; a
/// missing object is reported as a compile failure and a defective object
/// as its extraction error, if and only if; and `empty_sources` lists
/// exactly the sources whose extracted code is empty.
pub fn process_asm(sources: &Vec<SourceOutcome>) -> (r: ProcessOutput)
    ensures
        forall|k: int|
            0 <= k < r.errors@.len() ==> issue_valid(sources@, #[trigger] r.errors@[k]),
        forall|t: int|
            0 <= t < sources@.len() && (#[trigger] source_header_result(sources@[t])) is Err
                ==> has_issue(
                r.errors@,
                t,
                SourceError::Header(source_header_result(sources@[t])->Err_0),
            ),
        headers_all_ok(sources@) ==> {
            &&& r.codes@.len() == sources@.len()
            &&& forall|t: int|
                0 <= t < sources@.len() ==> (#[trigger] r.codes@[t]).addr == source_header_result(
                    sources@[t],
                )->Ok_0 && r.codes@[t].addr >= 0x8000_0000
            &&& forall|t: int|
                0 <= t < sources@.len() && (#[trigger] sources@[t].object) is None ==> has_issue(
                    r.errors@,
                    t,
                    SourceError::CompileFailed,
                )
            &&& forall|t: int|
                0 <= t < sources@.len() ==> match #[trigger] sources@[t].object {
                    Option::Some(obj) => {
                        &&& (extraction_ok(obj@) ==> r.codes@[t].code@ == extracted_code(obj@))
                        &&& (!extraction_ok(obj@) ==> has_extract_issue(r.errors@, t))
                    },
                    Option::None => true,
                }
            &&& forall|t: int|
                0 <= t < sources@.len() ==> (r.empty_sources@.contains(t as usize)
                    <==> #[trigger] empty_source_at(sources@, t))
            &&& forall|k: int|
                0 <= k < r.empty_sources@.len() ==> (#[trigger] r.empty_sources@[k])
                    < sources@.len()
        },
        !headers_all_ok(sources@) ==> r.codes@.len() == 0 && r.errors@.len() > 0,
{
    let mut codes: Vec<Code> = Vec::new();
    let mut errors: Vec<SourceIssue> = Vec::new();
    let mut i: usize = 0;
    while i < sources.len()
        invariant
            i <= sources@.len(),
            forall|k: int| 0 <= k < errors@.len() ==> issue_valid(sources@, #[trigger] errors@[k]),
            forall|k: int| 0 <= k < errors@.len() ==> (#[trigger] errors@[k]).error is Header,
            forall|t: int|
                0 <= t < i && (#[trigger] source_header_result(sources@[t])) is Err ==> has_issue(
                    errors@,
                    t,
                    SourceError::Header(source_header_result(sources@[t])->Err_0),
                ),
            errors@.len() == 0 ==> {
                &&& codes@.len() == i
                &&& forall|t: int|
                    0 <= t < i ==> (#[trigger] codes@[t]).addr == source_header_result(
                        sources@[t],
                    )->Ok_0 && codes@[t].addr >= 0x8000_0000
            },
            errors@.len() == 0 ==> forall|t: int|
                0 <= t < i ==> (#[trigger] source_header_result(sources@[t])) is Ok,
        decreases sources.len() - i,
    {
        let ghost old_errors = errors@;
        match parse_header(sources[i].header.as_slice(), sources[i].last_byte) {
            Ok(addr) => {
                codes.push(Code { addr, code: Vec::new() });
            },
            Err(h) => {
                errors.push(SourceIssue { index: i, error: SourceError::Header(h) });
                proof {
                    lemma_push_keeps_issues(old_errors, errors@);
                    assert(errors@[errors@.len() - 1].index == i as int);
                }
            },
        }
        i = i + 1;
    }
    if errors.len() > 0 {
        proof {
            let e0 = errors@[0];
            assert(issue_valid(sources@, e0));
            assert(source_header_result(sources@[e0.index as int]) is Err);
            assert(!headers_all_ok(sources@));
        }
        return ProcessOutput {
            codes: Vec::new(),
            errors,
            undefined: Vec::new(),
            empty_sources: Vec::new(),
        };
    }
    assert(headers_all_ok(sources@));
    let mut out: Vec<Code> = Vec::new();
    let mut undefined: Vec<(usize, Vec<String>)> = Vec::new();
    let mut empty_sources: Vec<usize> = Vec::new();
    let mut j: usize = 0;
    while j < codes.len()
        invariant
            codes@.len() == sources@.len(),
            j <= codes@.len(),
            out@.len() == j,
            forall|t: int|
                0 <= t < codes@.len() ==> (#[trigger] codes@[t]).addr == source_header_result(
                    sources@[t],
                )->Ok_0 && codes@[t].addr >= 0x8000_0000,
            forall|t: int| 0 <= t < j ==> (#[trigger] out@[t]).addr == codes@[t].addr,
            forall|k: int| 0 <= k < errors@.len() ==> issue_valid(sources@, #[trigger] errors@[k]),
            forall|t: int|
                0 <= t < j && (#[trigger] sources@[t].object) is None ==> has_issue(
                    errors@,
                    t,
                    SourceError::CompileFailed,
                ),
            forall|t: int|
                0 <= t < j ==> match #[trigger] sources@[t].object {
                    Option::Some(obj) => {
                        &&& (extraction_ok(obj@) ==> out@[t].code@ == extracted_code(obj@))
                        &&& (!extraction_ok(obj@) ==> has_extract_issue(errors@, t))
                    },
                    Option::None => true,
                },
            forall|t: int|
                0 <= t < j ==> (empty_sources@.contains(t as usize) <==> #[trigger] empty_source_at(
                    sources@,
                    t,
                )),
            forall|k: int| 0 <= k < empty_sources@.len() ==> (#[trigger] empty_sources@[k]) < j,
        decreases codes.len() - j,
    {
        let ghost old_errors = errors@;
        let ghost old_empty = empty_sources@;
        let addr = codes[j].addr;
        match &sources[j].object {
            None => {
                errors.push(SourceIssue { index: j, error: SourceError::CompileFailed });
                proof {
                    lemma_push_keeps_issues(old_errors, errors@);
                    assert(errors@[errors@.len() - 1].index == j as int);
                    lemma_bounded_absent(empty_sources@, j);
                }
                out.push(Code { addr, code: Vec::new() });
            },
            Some(obj) => {
                match extract_object(obj) {
                    Ok(ex) => {
                        proof {
                            assert(extraction_ok(obj@));
                            assert(ex.code@ == extracted_code(obj@));
                        }
                        if ex.code.len() == 0 {
                            empty_sources.push(j);
                            proof {
                                lemma_push_contains(old_empty, j);
                                assert(empty_source_at(sources@, j as int));
                            }
                        } else {
                            proof {
                                lemma_bounded_absent(empty_sources@, j);
                                assert(!empty_source_at(sources@, j as int));
                            }
                        }
                        if ex.undefined.len() > 0 {
                            undefined.push((j, ex.undefined));
                        }
                        out.push(Code { addr, code: ex.code });
                    },
                    Err(err) => {
                        proof {
                            assert(!extraction_ok(obj@));
                            assert(extract_err_matches(obj@, err));
                        }
                        errors.push(SourceIssue { index: j, error: SourceError::Extract(err) });
                        proof {
                            lemma_push_keeps_issues(old_errors, errors@);
                            assert(errors@[errors@.len() - 1].index == j as int);
                            assert(has_extract_issue(errors@, j as int));
                            lemma_bounded_absent(empty_sources@, j);
                        }
                        out.push(Code { addr, code: Vec::new() });
                    },
                }
            },
        }
        j = j + 1;
    }
    ProcessOutput { codes: out, errors, undefined, empty_sources }
}

} // verus!
