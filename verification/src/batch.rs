//! The orchestrator's decisions: which resolved tasks get fetched, and how
//! fetched markups become per-task results with failures isolated.
use vstd::prelude::*;

use crate::dom::{doc_of, parse_markup, Document};
use crate::extract::{all_answers, SkyAnswers, TaskAnswer};
use crate::session::{present_strings, ApiError};
use crate::text::normalize_text;

verus! {

/// The most tasks one invocation fetches; identifiers beyond the cap are
/// never fetched.
pub const MAX_TASKS: usize = 50;

impl SkyAnswers {
    /// The identifiers to fetch: the resolved list, in server order,
    /// capped at `MAX_TASKS`.  A failed resolution degrades to fetching
    /// nothing rather than to an error.
    pub fn plan_task_fetches(&self, resolution: Result<Vec<String>, ApiError>) -> (r: Vec<String>)
        ensures
            r@.len() <= MAX_TASKS,
            resolution is Err ==> r@.len() == 0,
            resolution matches Ok(uuids) ==> r.deep_view() == (if uuids.deep_view().len()
                > MAX_TASKS {
                uuids.deep_view().take(MAX_TASKS as int)
            } else {
                uuids.deep_view()
            }),
    {
        match resolution {
            Err(_) => Vec::new(),
            Ok(uuids) => {
                let ghost uv = uuids.deep_view();
                let n = uuids.len();
                let m = if n > MAX_TASKS {
                    MAX_TASKS
                } else {
                    n
                };
                let mut out: Vec<String> = Vec::new();
                let mut i: usize = 0;
                while i < m
                    invariant
                        m <= n,
                        n == uuids@.len(),
                        uv == uuids.deep_view(),
                        i <= m,
                        out.deep_view() == uv.take(i as int),
                    decreases m - i,
                {
                    let ghost prev = out.deep_view();
                    let next = uuids[i].clone();
                    proof {
                        assert(next@ == uuids@[i as int]@);
                        assert(uv[i as int] == uuids@[i as int]@);
                    }
                    out.push(next);
                    proof {
                        assert(out.deep_view() =~~= prev.push(uv[i as int]));
                        assert(out.deep_view() =~~= uv.take(i as int + 1));
                    }
                    i = i + 1;
                }
                proof {
                    if n <= MAX_TASKS {
                        assert(uv.take(n as int) =~= uv);
                    }
                }
                out
            },
        }
    }

    /// Builds the result list from the per-task fetch outcomes, in order:
    /// each fetched markup is parsed and run through every extraction
    /// rule; a failed fetch is skipped and reserves no task number, so
    /// numbering is the 1-based position among the successes.
    pub fn assemble_answers(&self, fetched: Vec<Option<String>>) -> (r: Vec<TaskAnswer>)
        ensures
            r@.len() == present_strings(fetched.deep_view()).len(),
            forall|j: int|
                0 <= j < r@.len() ==> {
                    let m = present_strings(fetched.deep_view())[j];
                    &&& (#[trigger] r@[j]).task_number == j + 1
                    &&& r@[j].question@ == normalize_text(doc_of(m).text)
                    &&& r@[j].answers.deep_view() == all_answers(doc_of(m))
                },
    {
        let ghost fv = fetched.deep_view();
        let n = fetched.len();
        let mut out: Vec<TaskAnswer> = Vec::new();
        let mut i: usize = 0;
        proof {
            assert(fv.take(0) =~= Seq::<Option<Seq<char>>>::empty());
        }
        while i < n
            invariant
                n == fetched@.len(),
                fv == fetched.deep_view(),
                fv.len() == n,
                i <= n,
                out@.len() == present_strings(fv.take(i as int)).len(),
                out@.len() <= i,
                forall|j: int|
                    0 <= j < out@.len() ==> {
                        let m = present_strings(fv.take(i as int))[j];
                        &&& (#[trigger] out@[j]).task_number == j + 1
                        &&& out@[j].question@ == normalize_text(doc_of(m).text)
                        &&& out@[j].answers.deep_view() == all_answers(doc_of(m))
                    },
            decreases n - i,
        {
            proof {
                crate::session::lemma_present_strings_take(fv, i as int);
            }
            match &fetched[i] {
                Some(markup) => {
                    proof {
                        assert(fv[i as int] == Some(markup@));
                    }
                    let document: Document = parse_markup(markup.as_str());
                    let number = out.len() + 1;
                    let answer = self.get_task_answer(&document, number);
                    out.push(answer);
                    proof {
                        assert(present_strings(fv.take(i as int + 1)) =~~= present_strings(
                            fv.take(i as int),
                        ).push(markup@));
                    }
                },
                None => {
                    proof {
                        assert(fv[i as int] is None);
                        assert(present_strings(fv.take(i as int + 1)) =~~= present_strings(
                            fv.take(i as int),
                        ));
                    }
                },
            }
            i = i + 1;
        }
        proof {
            assert(fv.take(n as int) =~= fv);
        }
        out
    }
}

} // verus!
