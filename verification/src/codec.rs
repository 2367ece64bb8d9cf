//! The record format: how a task is written as the JSON object the
//! backing store holds, and how a stored record is read back —
//! defensively, since a record that this system did not write may be
//! malformed. A record is one object with the four fields in fixed
//! order; the two free-text fields are escaped so that any text round
//! trips.

use vstd::prelude::*;
use vstd::string::StrSliceExecFns;
use vstd::string::StringExecFns;
use crate::task::{CoreError, Task, TaskStatus, TaskView};

verus! {

/// How one character of free text is written inside a quoted field.
pub open spec fn escape_char(c: char) -> Seq<char> {
    if c == '"' {
        seq!['\\', '"']
    } else if c == '\\' {
        seq!['\\', '\\']
    } else if c == '\n' {
        seq!['\\', 'n']
    } else if c == '\r' {
        seq!['\\', 'r']
    } else if c == '\t' {
        seq!['\\', 't']
    } else {
        seq![c]
    }
}

/// Free text as it is written inside a quoted field.
pub open spec fn spec_escape(s: Seq<char>) -> Seq<char>
    decreases s.len(),
{
    if s.len() == 0 {
        Seq::empty()
    } else {
        escape_char(s.first()) + spec_escape(s.drop_first())
    }
}

/// The name a status is written under.
pub open spec fn status_name(status: TaskStatus) -> Seq<char> {
    match status {
        TaskStatus::Pending => "Pending"@,
        TaskStatus::InProgress => "InProgress"@,
        TaskStatus::Completed => "Completed"@,
    }
}

/// A task as one stored record.
pub open spec fn spec_encode_task(t: TaskView) -> Seq<char> {
    "{\"description\":\""@ + spec_escape(t.description) + "\""@ + ",\"action\":\""@ + spec_escape(
        t.action,
    ) + "\""@ + ",\"status\":\""@ + status_name(t.status) + "\""@ + ",\"is_permanent\":"@ + (
    if t.is_permanent {
        "true"@
    } else {
        "false"@
    }) + "}"@
}

/// The character an escape pair decodes to, if the pair is legal.
pub open spec fn unescape_char(c: char) -> Option<char> {
    if c == '"' {
        Some('"')
    } else if c == '\\' {
        Some('\\')
    } else if c == 'n' {
        Some('\n')
    } else if c == 'r' {
        Some('\r')
    } else if c == 't' {
        Some('\t')
    } else {
        None
    }
}

/// `s` without the prefix `p`, if `s` starts with it.
pub open spec fn strip_prefix(s: Seq<char>, p: Seq<char>) -> Option<Seq<char>> {
    if s.len() >= p.len() && s.take(p.len() as int) == p {
        Some(s.skip(p.len() as int))
    } else {
        None
    }
}

/// Reads a quoted field from the opening quote's far side up to and over
/// the closing quote: the decoded text and what follows the quote, or
/// nothing if the text never closes or holds an illegal escape.
pub open spec fn spec_parse_string(s: Seq<char>) -> Option<(Seq<char>, Seq<char>)>
    decreases s.len(),
{
    if s.len() == 0 {
        None
    } else if s.first() == '"' {
        Some((Seq::empty(), s.drop_first()))
    } else if s.first() == '\\' {
        if s.len() < 2 {
            None
        } else {
            match unescape_char(s[1]) {
                None => None,
                Some(u) => match spec_parse_string(s.skip(2)) {
                    None => None,
                    Some(p) => Some((seq![u] + p.0, p.1)),
                },
            }
        }
    } else {
        match spec_parse_string(s.drop_first()) {
            None => None,
            Some(p) => Some((seq![s.first()] + p.0, p.1)),
        }
    }
}

/// Reads a status name.
pub open spec fn spec_parse_status(s: Seq<char>) -> Option<(TaskStatus, Seq<char>)> {
    match strip_prefix(s, "Pending"@) {
        Some(rest) => Some((TaskStatus::Pending, rest)),
        None => match strip_prefix(s, "InProgress"@) {
            Some(rest) => Some((TaskStatus::InProgress, rest)),
            None => match strip_prefix(s, "Completed"@) {
                Some(rest) => Some((TaskStatus::Completed, rest)),
                None => None,
            },
        },
    }
}

/// Reads a boolean.
pub open spec fn spec_parse_bool(s: Seq<char>) -> Option<(bool, Seq<char>)> {
    match strip_prefix(s, "true"@) {
        Some(rest) => Some((true, rest)),
        None => match strip_prefix(s, "false"@) {
            Some(rest) => Some((false, rest)),
            None => None,
        },
    }
}

/// Reads one whole record, accepting exactly the texts that
/// `spec_encode_task` writes.
pub open spec fn spec_parse_task(s: Seq<char>) -> Option<TaskView> {
    match strip_prefix(s, "{\"description\":\""@) {
        None => None,
        Some(s1) => match spec_parse_string(s1) {
            None => None,
            Some(d) => match strip_prefix(d.1, ",\"action\":\""@) {
                None => None,
                Some(s2) => match spec_parse_string(s2) {
                    None => None,
                    Some(a) => match strip_prefix(a.1, ",\"status\":\""@) {
                        None => None,
                        Some(s3) => match spec_parse_status(s3) {
                            None => None,
                            Some(st) => match strip_prefix(st.1, "\""@) {
                                None => None,
                                Some(q) => match strip_prefix(q, ",\"is_permanent\":"@) {
                                    None => None,
                                    Some(s4) => match spec_parse_bool(s4) {
                                        None => None,
                                        Some(b) => match strip_prefix(b.1, "}"@) {
                                            None => None,
                                            Some(s5) => if s5.len() == 0 {
                                                Some(
                                                    TaskView {
                                                        description: d.0,
                                                        action: a.0,
                                                        status: st.0,
                                                        is_permanent: b.0,
                                                    },
                                                )
                                            } else {
                                                None
                                            },
                                        },
                                    },
                                },
                            },
                        },
                    },
                },
            },
        },
    }
}

/// Appends the escaped form of `s` to `out`.
pub(crate) fn escape_into(out: &mut String, s: &str)
    ensures
        final(out)@ == old(out)@ + spec_escape(s@),
{
    let s_len = s.unicode_len();
    let mut i: usize = 0;
    proof {
        reveal_strlit("\\\"");
        reveal_strlit("\\\\");
        reveal_strlit("\\n");
        reveal_strlit("\\r");
        reveal_strlit("\\t");
        assert(s@.skip(0) =~= s@);
        assert(old(out)@ + spec_escape(s@) == old(out)@ + spec_escape(s@.skip(0)));
    }
    while i < s_len
        invariant
            i <= s_len,
            s_len == s@.len(),
            out@ + spec_escape(s@.skip(i as int)) == old(out)@ + spec_escape(s@),
        decreases s_len - i,
    {
        let ghost rest = s@.skip(i as int);
        proof {
            reveal_strlit("\\\"");
            reveal_strlit("\\\\");
            reveal_strlit("\\n");
            reveal_strlit("\\r");
            reveal_strlit("\\t");
            assert(rest.first() == s@[i as int]);
            assert(rest.drop_first() =~= s@.skip(i + 1));
        }
        let c = s.get_char(i);
        if c == '"' {
            out.append("\\\"");
            proof {
                assert("\\\""@ =~= escape_char(c));
            }
        } else if c == '\\' {
            out.append("\\\\");
            proof {
                assert("\\\\"@ =~= escape_char(c));
            }
        } else if c == '\n' {
            out.append("\\n");
            proof {
                assert("\\n"@ =~= escape_char(c));
            }
        } else if c == '\r' {
            out.append("\\r");
            proof {
                assert("\\r"@ =~= escape_char(c));
            }
        } else if c == '\t' {
            out.append("\\t");
            proof {
                assert("\\t"@ =~= escape_char(c));
            }
        } else {
            let piece = s.substring_char(i, i + 1);
            out.append(piece);
            proof {
                assert(piece@ =~= escape_char(c));
            }
        }
        proof {
            assert(out@ + spec_escape(s@.skip(i + 1)) =~= old(out)@ + spec_escape(s@));
        }
        i += 1;
    }
    proof {
        assert(s@.skip(i as int) =~= Seq::<char>::empty());
        assert(out@ + Seq::<char>::empty() =~= out@);
    }
}

/// Decides whether the text at position `i` starts with `pat`, handing
/// back the position just past it.
fn match_literal(s: &str, i: usize, pat: &str) -> (r: Option<usize>)
    requires
        i <= s@.len(),
    ensures
        match r {
            Some(j) => i <= j <= s@.len() && strip_prefix(s@.skip(i as int), pat@) == Some(
                s@.skip(j as int),
            ),
            None => strip_prefix(s@.skip(i as int), pat@) is None,
        },
{
    let s_len = s.unicode_len();
    let pat_len = pat.unicode_len();
    if pat_len > s_len - i {
        return None;
    }
    let mut k: usize = 0;
    while k < pat_len
        invariant
            k <= pat_len,
            pat_len == pat@.len(),
            s_len == s@.len(),
            i + pat_len <= s_len,
            forall|j: int| 0 <= j < k ==> s@[i + j] == pat@[j],
        decreases pat_len - k,
    {
        if s.get_char(i + k) != pat.get_char(k) {
            proof {
                assert(s@.skip(i as int).take(pat@.len() as int)[k as int] == s@[i + k]);
            }
            return None;
        }
        k += 1;
    }
    proof {
        assert(s@.skip(i as int).take(pat@.len() as int) =~= pat@);
        assert(s@.skip(i as int).skip(pat@.len() as int) =~= s@.skip(i + pat@.len()));
    }
    Some(i + pat_len)
}

/// Reads a quoted field starting at position `i` (just past the opening
/// quote): the decoded text and the position just past the closing
/// quote.
fn parse_string_at(s: &str, start: usize) -> (r: Option<(String, usize)>)
    requires
        start <= s@.len(),
    ensures
        match r {
            Some(p) => p.1 <= s@.len() && spec_parse_string(s@.skip(start as int)) == Some(
                (p.0@, s@.skip(p.1 as int)),
            ),
            None => spec_parse_string(s@.skip(start as int)) is None,
        },
{
    let s_len = s.unicode_len();
    let mut content = String::new();
    let mut i: usize = start;
    while i < s_len
        invariant
            start <= i <= s_len,
            s_len == s@.len(),
            ({
                let whole = spec_parse_string(s@.skip(start as int));
                match spec_parse_string(s@.skip(i as int)) {
                    Some(p) => whole == Some::<(Seq<char>, Seq<char>)>((content@ + p.0, p.1)),
                    None => whole is None,
                }
            }),
        decreases s_len - i,
    {
        let ghost rest = s@.skip(i as int);
        proof {
            assert(rest.first() == s@[i as int]);
            assert(rest.drop_first() =~= s@.skip(i + 1));
        }
        let c = s.get_char(i);
        if c == '"' {
            proof {
                assert(spec_parse_string(rest) == Some::<(Seq<char>, Seq<char>)>(
                    (Seq::empty(), s@.skip(i + 1)),
                ));
                assert(content@ + Seq::<char>::empty() =~= content@);
            }
            return Some((content, i + 1));
        }
        if c == '\\' {
            if s_len - i < 2 {
                return None;
            }
            let c2 = s.get_char(i + 1);
            proof {
                reveal_strlit("\"");
                reveal_strlit("\\");
                reveal_strlit("\n");
                reveal_strlit("\r");
                reveal_strlit("\t");
                assert(rest[1] == s@[i + 1]);
                assert(rest.skip(2) =~= s@.skip(i + 2));
            }
            let ghost content_pre = content@;
            if c2 == '"' {
                content.append("\"");
                proof {
                    assert(content@ =~= content_pre + seq!['"']);
                }
            } else if c2 == '\\' {
                content.append("\\");
                proof {
                    assert(content@ =~= content_pre + seq!['\\']);
                }
            } else if c2 == 'n' {
                content.append("\n");
                proof {
                    assert(content@ =~= content_pre + seq!['\n']);
                }
            } else if c2 == 'r' {
                content.append("\r");
                proof {
                    assert(content@ =~= content_pre + seq!['\r']);
                }
            } else if c2 == 't' {
                content.append("\t");
                proof {
                    assert(content@ =~= content_pre + seq!['\t']);
                }
            } else {
                proof {
                    assert(unescape_char(s@[i + 1]) is None);
                }
                return None;
            }
            proof {
                let u = unescape_char(s@[i + 1])->0;
                assert(content@ =~= content_pre + seq![u]);
                match spec_parse_string(s@.skip(i + 2)) {
                    Some(p) => {
                        assert(content_pre + (seq![u] + p.0) =~= content@ + p.0);
                    },
                    None => {},
                }
            }
            i += 2;
        } else {
            let piece = s.substring_char(i, i + 1);
            let ghost content_pre = content@;
            content.append(piece);
            proof {
                assert(piece@ =~= seq![s@[i as int]]);
                match spec_parse_string(s@.skip(i + 1)) {
                    Some(p) => {
                        assert(content_pre + (seq![s@[i as int]] + p.0) =~= content@ + p.0);
                    },
                    None => {},
                }
            }
            i += 1;
        }
    }
    proof {
        assert(s@.skip(i as int) =~= Seq::<char>::empty());
        assert(spec_parse_string(Seq::<char>::empty()) is None);
    }
    None
}

/// Reads a status name at position `i`.
fn parse_status_at(s: &str, i: usize) -> (r: Option<(TaskStatus, usize)>)
    requires
        i <= s@.len(),
    ensures
        match r {
            Some(p) => p.1 <= s@.len() && spec_parse_status(s@.skip(i as int)) == Some(
                (p.0, s@.skip(p.1 as int)),
            ),
            None => spec_parse_status(s@.skip(i as int)) is None,
        },
{
    if let Some(j) = match_literal(s, i, "Pending") {
        return Some((TaskStatus::Pending, j));
    }
    if let Some(j) = match_literal(s, i, "InProgress") {
        return Some((TaskStatus::InProgress, j));
    }
    if let Some(j) = match_literal(s, i, "Completed") {
        return Some((TaskStatus::Completed, j));
    }
    None
}

/// Reads a boolean at position `i`.
fn parse_bool_at(s: &str, i: usize) -> (r: Option<(bool, usize)>)
    requires
        i <= s@.len(),
    ensures
        match r {
            Some(p) => p.1 <= s@.len() && spec_parse_bool(s@.skip(i as int)) == Some(
                (p.0, s@.skip(p.1 as int)),
            ),
            None => spec_parse_bool(s@.skip(i as int)) is None,
        },
{
    if let Some(j) = match_literal(s, i, "true") {
        return Some((true, j));
    }
    if let Some(j) = match_literal(s, i, "false") {
        return Some((false, j));
    }
    None
}

/// Reads one stored record back into a task, accepting exactly the
/// texts `encode_task` writes and failing on everything else.
pub fn parse_task(s: &str) -> (r: Result<Task, CoreError>)
    ensures
        match r {
            Ok(t) => spec_parse_task(s@) == Some(t@),
            Err(e) => e == CoreError::SerializationFailure && spec_parse_task(s@) is None,
        },
{
    let s_len = s.unicode_len();
    proof {
        assert(s@.skip(0) =~= s@);
    }
    let i0 = match match_literal(s, 0, "{\"description\":\"") {
        Some(j) => j,
        None => {
            return Err(CoreError::SerializationFailure);
        },
    };
    let (description, i1) = match parse_string_at(s, i0) {
        Some(p) => p,
        None => {
            return Err(CoreError::SerializationFailure);
        },
    };
    let i2 = match match_literal(s, i1, ",\"action\":\"") {
        Some(j) => j,
        None => {
            return Err(CoreError::SerializationFailure);
        },
    };
    let (action, i3) = match parse_string_at(s, i2) {
        Some(p) => p,
        None => {
            return Err(CoreError::SerializationFailure);
        },
    };
    let i4 = match match_literal(s, i3, ",\"status\":\"") {
        Some(j) => j,
        None => {
            return Err(CoreError::SerializationFailure);
        },
    };
    let (status, i5) = match parse_status_at(s, i4) {
        Some(p) => p,
        None => {
            return Err(CoreError::SerializationFailure);
        },
    };
    let i5q = match match_literal(s, i5, "\"") {
        Some(j) => j,
        None => {
            return Err(CoreError::SerializationFailure);
        },
    };
    let i6 = match match_literal(s, i5q, ",\"is_permanent\":") {
        Some(j) => j,
        None => {
            return Err(CoreError::SerializationFailure);
        },
    };
    let (is_permanent, i7) = match parse_bool_at(s, i6) {
        Some(p) => p,
        None => {
            return Err(CoreError::SerializationFailure);
        },
    };
    let i8 = match match_literal(s, i7, "}") {
        Some(j) => j,
        None => {
            return Err(CoreError::SerializationFailure);
        },
    };
    if i8 != s_len {
        proof {
            assert(s@.skip(i8 as int).len() > 0);
        }
        return Err(CoreError::SerializationFailure);
    }
    proof {
        assert(s@.skip(i8 as int).len() == 0);
    }
    Ok(Task { description, action, status, is_permanent })
}

/// Reading a quoted field back undoes escaping: escaped text followed by
/// a closing quote and a tail parses to the unescaped text and that tail.
proof fn lemma_parse_escaped(d: Seq<char>, tail: Seq<char>)
    ensures
        spec_parse_string(spec_escape(d) + seq!['"'] + tail) == Some::<(Seq<char>, Seq<char>)>(
            (d, tail),
        ),
    decreases d.len(),
{
    let s = spec_escape(d) + seq!['"'] + tail;
    if d.len() == 0 {
        assert(spec_escape(d) =~= Seq::<char>::empty());
        assert(s =~= seq!['"'] + tail);
        assert(s.first() == '"');
        assert(s.drop_first() =~= tail);
    } else {
        let c = d.first();
        let dr = d.drop_first();
        lemma_parse_escaped(dr, tail);
        let srest = spec_escape(dr) + seq!['"'] + tail;
        assert(spec_escape(d) == escape_char(c) + spec_escape(dr));
        if c == '"' || c == '\\' || c == '\n' || c == '\r' || c == '\t' {
            assert(s =~= escape_char(c) + srest);
            assert(s.len() >= 2);
            assert(s.first() == '\\');
            assert(s[1] == escape_char(c)[1]);
            assert(unescape_char(s[1]) == Some(c));
            assert(s.skip(2) =~= srest);
            assert(seq![c] + dr =~= d);
        } else {
            assert(s.first() == c);
            assert(s.drop_first() =~= srest);
            assert(seq![c] + dr =~= d);
        }
    }
}

/// A text that starts with `p` strips to exactly what follows it.
proof fn lemma_strip_concat(p: Seq<char>, x: Seq<char>)
    ensures
        strip_prefix(p + x, p) == Some(x),
{
    assert((p + x).take(p.len() as int) =~= p);
    assert((p + x).skip(p.len() as int) =~= x);
}

/// A status name followed by anything reads back as that status.
proof fn lemma_status_parse(status: TaskStatus, rest: Seq<char>)
    ensures
        spec_parse_status(status_name(status) + rest) == Some::<(TaskStatus, Seq<char>)>(
            (status, rest),
        ),
{
    let s = status_name(status) + rest;
    match status {
        TaskStatus::Pending => {
            lemma_strip_concat("Pending"@, rest);
        },
        TaskStatus::InProgress => {
            assert(strip_prefix(s, "Pending"@) is None) by {
                reveal_strlit("Pending");
                reveal_strlit("InProgress");
                if s.len() >= "Pending"@.len() {
                    assert(s.take("Pending"@.len() as int)[0] == 'I');
                }
            }
            lemma_strip_concat("InProgress"@, rest);
        },
        TaskStatus::Completed => {
            assert(strip_prefix(s, "Pending"@) is None) by {
                reveal_strlit("Pending");
                reveal_strlit("Completed");
                if s.len() >= "Pending"@.len() {
                    assert(s.take("Pending"@.len() as int)[0] == 'C');
                }
            }
            assert(strip_prefix(s, "InProgress"@) is None) by {
                reveal_strlit("InProgress");
                reveal_strlit("Completed");
                if s.len() >= "InProgress"@.len() {
                    assert(s.take("InProgress"@.len() as int)[0] == 'C');
                }
            }
            lemma_strip_concat("Completed"@, rest);
        },
    }
}

/// A boolean followed by anything reads back as that boolean.
proof fn lemma_bool_parse(b: bool, rest: Seq<char>)
    ensures
        spec_parse_bool(
            (if b {
                "true"@
            } else {
                "false"@
            }) + rest,
        ) == Some::<(bool, Seq<char>)>((b, rest)),
{
    if b {
        lemma_strip_concat("true"@, rest);
    } else {
        let s = "false"@ + rest;
        assert(strip_prefix(s, "true"@) is None) by {
            reveal_strlit("true");
            reveal_strlit("false");
            if s.len() >= "true"@.len() {
                assert(s.take("true"@.len() as int)[0] == 'f');
            }
        }
        lemma_strip_concat("false"@, rest);
    }
}

/// Round-trip law: a task written by `spec_encode_task` is read back by
/// `spec_parse_task` as exactly the same record — so for every task,
/// `parse_task` succeeds on `encode_task`'s output and returns an equal
/// task.
#[verifier::rlimit(60)]
pub proof fn lemma_task_round_trip(t: TaskView)
    ensures
        spec_parse_task(spec_encode_task(t)) == Some(t),
{
    let e = spec_encode_task(t);
    let name = status_name(t.status);
    let bv: Seq<char> = if t.is_permanent {
        "true"@
    } else {
        "false"@
    };
    let s7: Seq<char> = "}"@;
    let s6 = bv + s7;
    let s5 = ",\"is_permanent\":"@ + s6;
    let s4 = "\""@ + s5;
    let s3 = name + s4;
    let s2p = ",\"status\":\""@ + s3;
    let a_quoted = spec_escape(t.action) + seq!['"'] + s2p;
    let s2 = ",\"action\":\""@ + a_quoted;
    let d_quoted = spec_escape(t.description) + seq!['"'] + s2;
    assert(e =~= "{\"description\":\""@ + d_quoted) by {
        reveal_strlit("\"");
    }
    lemma_strip_concat("{\"description\":\""@, d_quoted);
    lemma_parse_escaped(t.description, s2);
    lemma_strip_concat(",\"action\":\""@, a_quoted);
    lemma_parse_escaped(t.action, s2p);
    lemma_strip_concat(",\"status\":\""@, s3);
    lemma_status_parse(t.status, s4);
    lemma_strip_concat("\""@, s5);
    lemma_strip_concat(",\"is_permanent\":"@, s6);
    lemma_bool_parse(t.is_permanent, s7);
    assert(s7 =~= "}"@ + Seq::<char>::empty());
    lemma_strip_concat("}"@, Seq::<char>::empty());
    assert(spec_parse_task(e) == Some(
        TaskView {
            description: t.description,
            action: t.action,
            status: t.status,
            is_permanent: t.is_permanent,
        },
    ));
    assert(TaskView {
        description: t.description,
        action: t.action,
        status: t.status,
        is_permanent: t.is_permanent,
    } =~= t);
}

/// Writes a task as the record the store holds.
/// Writes a task as the record the store holds.
pub fn encode_task(t: &Task) -> (r: String)
    ensures
        r@ == spec_encode_task(t@),
{
    let mut r = String::from_str("{\"description\":\"");
    escape_into(&mut r, t.description.as_str());
    r.append("\"");
    r.append(",\"action\":\"");
    escape_into(&mut r, t.action.as_str());
    r.append("\"");
    r.append(",\"status\":\"");
    match t.status {
        TaskStatus::Pending => r.append("Pending"),
        TaskStatus::InProgress => r.append("InProgress"),
        TaskStatus::Completed => r.append("Completed"),
    }
    r.append("\"");
    r.append(",\"is_permanent\":");
    if t.is_permanent {
        r.append("true");
    } else {
        r.append("false");
    }
    r.append("}");
    proof {
        assert(r@ =~= spec_encode_task(t@));
    }
    r
}

} // verus!
