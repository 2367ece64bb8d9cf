//! The capability client's decision half: the endpoint address and model
//! name it is configured with, the derivation of the model-information
//! probe address, and the prompt assembled for a free-text query over the
//! current task list. The transport half — issuing the HTTP calls — lives
//! outside the library and consumes these values.

use vstd::prelude::*;
use vstd::string::StrSliceExecFns;
use vstd::string::StringExecFns;
use crate::codec::{escape_into, spec_escape};
use crate::task::{Task, TaskView};

verus! {

/// Replaces, left to right and without overlap, every occurrence of
/// `pat` in `s` by `sub`.
pub open spec fn spec_replace(s: Seq<char>, pat: Seq<char>, sub: Seq<char>) -> Seq<char>
    decreases s.len(),
    when pat.len() > 0
{
    if s.len() < pat.len() {
        s
    } else if s.take(pat.len() as int) == pat {
        sub + spec_replace(s.skip(pat.len() as int), pat, sub)
    } else {
        seq![s.first()] + spec_replace(s.drop_first(), pat, sub)
    }
}

/// Whether `pat` occurs in `s` starting at position `at`.
pub open spec fn matches_at(s: Seq<char>, pat: Seq<char>, at: int) -> bool {
    &&& 0 <= at
    &&& at + pat.len() <= s.len()
    &&& s.subrange(at, at + pat.len()) == pat
}

/// Decides whether `pat` occurs in `s` starting at position `at`.
fn has_pattern_at(s: &str, pat: &str, at: usize) -> (r: bool)
    requires
        at + pat@.len() <= s@.len(),
    ensures
        r == matches_at(s@, pat@, at as int),
{
    let pat_len = pat.unicode_len();
    let s_len = s.unicode_len();
    let mut k: usize = 0;
    while k < pat_len
        invariant
            k <= pat_len,
            pat_len == pat@.len(),
            s_len == s@.len(),
            at + pat@.len() <= s@.len(),
            forall|j: int| 0 <= j < k ==> s@[at + j] == pat@[j],
        decreases pat_len - k,
    {
        if s.get_char(at + k) != pat.get_char(k) {
            assert(!matches_at(s@, pat@, at as int)) by {
                assert(s@.subrange(at as int, at + pat@.len())[k as int] == s@[at + k]);
            }
            return false;
        }
        k += 1;
    }
    proof {
        assert(s@.subrange(at as int, at + pat@.len()) =~= pat@);
    }
    true
}

/// Replaces every occurrence of `pat` in `s` by `sub`, scanning left to
/// right without overlap.
pub fn replace_all(s: &str, pat: &str, sub: &str) -> (r: String)
    requires
        pat@.len() > 0,
    ensures
        r@ == spec_replace(s@, pat@, sub@),
{
    let s_len = s.unicode_len();
    let pat_len = pat.unicode_len();
    let mut r = String::new();
    let mut i: usize = 0;
    proof {
        assert(s@.skip(0) =~= s@);
    }
    while i < s_len
        invariant
            i <= s_len,
            s_len == s@.len(),
            pat_len == pat@.len(),
            pat@.len() > 0,
            r@ + spec_replace(s@.skip(i as int), pat@, sub@) == spec_replace(s@, pat@, sub@),
        decreases s_len - i,
    {
        let ghost rest = s@.skip(i as int);
        if pat_len <= s_len - i && has_pattern_at(s, pat, i) {
            proof {
                assert(rest.take(pat@.len() as int) =~= s@.subrange(i as int, i + pat@.len()));
                assert(rest.skip(pat@.len() as int) =~= s@.skip(i + pat@.len()));
            }
            r.append(sub);
            i += pat_len;
        } else {
            proof {
                if rest.len() >= pat@.len() {
                    assert(rest.take(pat@.len() as int) =~= s@.subrange(i as int, i + pat@.len()));
                }
                assert(rest.drop_first() =~= s@.skip(i + 1));
                assert(seq![rest.first()] =~= s@.subrange(i as int, i + 1));
            }
            let piece = s.substring_char(i, i + 1);
            r.append(piece);
            i += 1;
        }
    }
    proof {
        assert(s@.skip(i as int) =~= Seq::<char>::empty());
        assert(r@ + Seq::<char>::empty() =~= r@);
    }
    r
}

/// Configuration of the external reasoning capability: where its generate
/// endpoint lives and which model answers.
pub struct LLMClient {
    url: String,
    model: String,
}

impl LLMClient {
    /// The configured generate-endpoint address.
    pub closed spec fn url(&self) -> Seq<char> {
        self.url@
    }

    /// The configured model name.
    pub closed spec fn model(&self) -> Seq<char> {
        self.model@
    }

    /// A client pointed at the given endpoint and model.
    pub fn new(url: &str, model: &str) -> (c: LLMClient)
        ensures
            c.url() == url@,
            c.model() == model@,
    {
        LLMClient { url: url.to_owned(), model: model.to_owned() }
    }

    /// Switches the active model; the endpoint stays.
    pub fn change_model(&mut self, model: &str)
        ensures
            final(self).model() == model@,
            final(self).url() == old(self).url(),
    {
        self.model = model.to_owned();
    }

    /// The address of the model-information probe used by the liveness
    /// check: the generate address with `generate` replaced by `show`.
    pub fn show_url(&self) -> (r: String)
        ensures
            r@ == spec_replace(self.url(), "generate"@, "show"@),
    {
        proof {
            reveal_strlit("generate");
        }
        replace_all(self.url.as_str(), "generate", "show")
    }

    /// The model name handed to the probe and to each processing call.
    pub fn model_name(&self) -> (r: String)
        ensures
            r@ == self.model(),
    {
        self.model.clone()
    }

    /// The endpoint address handed to each processing call.
    pub fn endpoint_url(&self) -> (r: String)
        ensures
            r@ == self.url(),
    {
        self.url.clone()
    }
}

/// A description as it appears in the prompt's task list: wrapped in
/// double quotes, with quotes, backslashes and the common control
/// characters inside it written as backslash pairs.
pub open spec fn spec_quoted(d: Seq<char>) -> Seq<char> {
    "\""@ + spec_escape(d) + "\""@
}

/// The quoted descriptions joined with a comma and a space.
pub open spec fn spec_joined(ds: Seq<Seq<char>>) -> Seq<char>
    decreases ds.len(),
{
    if ds.len() == 0 {
        Seq::empty()
    } else if ds.len() == 1 {
        spec_quoted(ds.first())
    } else {
        spec_quoted(ds.first()) + ", "@ + spec_joined(ds.drop_first())
    }
}

/// The prompt assembled for a free-text query: the current task
/// descriptions as context, then the query on its own line.
pub open spec fn spec_query_prompt(query: Seq<char>, ds: Seq<Seq<char>>) -> Seq<char> {
    "Current tasks: ["@ + spec_joined(ds) + "]"@ + "\n"@ + query
}

/// Joining one more description extends the joined text at its end.
proof fn lemma_joined_push(ds: Seq<Seq<char>>, d: Seq<char>)
    ensures
        spec_joined(ds.push(d)) == if ds.len() == 0 {
            spec_quoted(d)
        } else {
            spec_joined(ds) + ", "@ + spec_quoted(d)
        },
    decreases ds.len(),
{
    let e = ds.push(d);
    if ds.len() == 0 {
        assert(e.len() == 1 && e.first() == d);
    } else {
        assert(e.drop_first() =~= ds.drop_first().push(d));
        lemma_joined_push(ds.drop_first(), d);
        if ds.len() == 1 {
            assert(spec_joined(e) =~= spec_joined(ds) + ", "@ + spec_quoted(d));
        } else {
            assert(spec_joined(e) =~= spec_joined(ds) + ", "@ + spec_quoted(d));
        }
    }
}

/// Assembles the prompt for a free-text query over the given task
/// descriptions.
pub fn query_prompt(query: &str, descriptions: &Vec<String>) -> (r: String)
    ensures
        r@ == spec_query_prompt(query@, descriptions@.map_values(|s: String| s@)),
{
    let ghost ds = descriptions@.map_values(|s: String| s@);
    let mut r = String::from_str("Current tasks: [");
    let mut i: usize = 0;
    proof {
        assert(ds.take(0) =~= Seq::<Seq<char>>::empty());
    }
    while i < descriptions.len()
        invariant
            i <= descriptions@.len(),
            ds == descriptions@.map_values(|s: String| s@),
            r@ == "Current tasks: ["@ + spec_joined(ds.take(i as int)),
        decreases descriptions@.len() - i,
    {
        if i > 0 {
            r.append(", ");
        }
        r.append("\"");
        escape_into(&mut r, descriptions[i].as_str());
        r.append("\"");
        proof {
            assert(ds.take(i + 1) =~= ds.take(i as int).push(ds[i as int]));
            lemma_joined_push(ds.take(i as int), ds[i as int]);
            assert(r@ =~= "Current tasks: ["@ + spec_joined(ds.take(i + 1)));
        }
        i += 1;
    }
    r.append("]");
    r.append("\n");
    r.append(query);
    proof {
        assert(ds.take(i as int) =~= ds);
        assert(r@ =~= spec_query_prompt(query@, ds));
    }
    r
}

/// The prompt handed to the capability for one processing call: the
/// task's description, as it stands.
pub open spec fn spec_processing_prompt(t: TaskView) -> Seq<char> {
    t.description
}

/// Assembles the prompt for processing one task.
pub fn processing_prompt(task: &Task) -> (r: String)
    ensures
        r@ == spec_processing_prompt(task@),
{
    task.description.clone()
}

/// The descriptions of the given tasks, in order.
pub fn task_descriptions(tasks: &Vec<Task>) -> (r: Vec<String>)
    ensures
        r@.len() == tasks@.len(),
        forall|i: int| 0 <= i < tasks@.len() ==> r@[i]@ == tasks@[i]@.description,
{
    let mut r: Vec<String> = Vec::new();
    let mut i: usize = 0;
    while i < tasks.len()
        invariant
            i <= tasks@.len(),
            r@.len() == i,
            forall|j: int| 0 <= j < i ==> r@[j]@ == tasks@[j]@.description,
        decreases tasks@.len() - i,
    {
        r.push(tasks[i].description.clone());
        i += 1;
    }
    r
}

} // verus!
