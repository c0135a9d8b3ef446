//! The persisted document: a JSON-shaped text holding the task list, the
//! selection and the draft. `save` renders a state as that text; `load` reads
//! the text back, falling back to the empty default whenever the text is not
//! a well-formed document. Loading what `save` wrote gives the state back
//! exactly.
use vstd::prelude::*;
use vstd::string::StrSliceExecFns;
use vstd::string::StringExecFns;
use crate::digits::{
    all_digits, dec, digit_run, digit_val, is_digit, lemma_dec_props, lemma_digit_run_of,
    lemma_val_prefix, lemma_val_snoc, val,
};
use crate::state::{default_state, AppState, StateV, Task, TaskV, views_of};
use crate::text::{push_char, push_dec, str_chars};

verus! {

// ---------------------------------------------------------------------------
// The document's grammar, encoding side.
// ---------------------------------------------------------------------------
/// How one character stands in a quoted string: quotes and backslashes take a
/// leading backslash, everything else stands as itself.
pub open spec fn esc_char(c: char) -> Seq<char> {
    if c == '"' || c == '\\' {
        seq!['\\', c]
    } else {
        seq![c]
    }
}

pub open spec fn esc(s: Seq<char>) -> Seq<char>
    decreases s.len(),
{
    if s.len() == 0 {
        Seq::empty()
    } else {
        esc_char(s[0]) + esc(s.skip(1))
    }
}

/// A quoted, escaped string.
pub open spec fn enc_str(s: Seq<char>) -> Seq<char> {
    seq!['"'] + esc(s) + seq!['"']
}

/// One task as an object with its name and its accrued seconds.
pub open spec fn enc_task(t: TaskV) -> Seq<char> {
    "{\"name\":"@ + enc_str(t.name) + ",\"accumulated\":"@ + dec(t.accumulated as nat) + "}"@
}

/// The task list's elements, joined by commas.
pub open spec fn enc_tasks(ts: Seq<TaskV>) -> Seq<char>
    decreases ts.len(),
{
    if ts.len() == 0 {
        Seq::empty()
    } else if ts.len() == 1 {
        enc_task(ts[0])
    } else {
        enc_task(ts[0]) + seq![','] + enc_tasks(ts.skip(1))
    }
}

/// The selection: `null`, or the selected index in decimal.
pub open spec fn enc_sel(sel: Option<usize>) -> Seq<char> {
    match sel {
        None => "null"@,
        Some(i) => dec(i as nat),
    }
}

/// The whole persisted document.
pub open spec fn doc(s: StateV) -> Seq<char> {
    "{\"tasks\":["@ + enc_tasks(s.tasks) + "],\"selected\":"@ + enc_sel(s.selected)
        + ",\"new_task_name\":"@ + enc_str(s.draft) + "}"@
}

proof fn lemma_esc_snoc(s: Seq<char>, c: char)
    ensures
        esc(s.push(c)) == esc(s) + esc_char(c),
    decreases s.len(),
{
    if s.len() == 0 {
        assert(s.push(c) =~= seq![c]);
        assert(s.push(c).skip(1) =~= Seq::<char>::empty());
        assert(esc(s.push(c)) == esc_char(s.push(c)[0]) + esc(s.push(c).skip(1)));
        assert(s.push(c)[0] == c);
        assert(esc(Seq::<char>::empty()) == Seq::<char>::empty());
        assert(esc(s.push(c)) =~= esc(s) + esc_char(c));
    } else {
        assert(s.push(c).skip(1) =~= s.skip(1).push(c));
        lemma_esc_snoc(s.skip(1), c);
        assert(esc(s.push(c)) == esc_char(s[0]) + (esc(s.skip(1)) + esc_char(c)));
        assert(esc_char(s[0]) + (esc(s.skip(1)) + esc_char(c)) =~= (esc_char(s[0]) + esc(
            s.skip(1),
        )) + esc_char(c));
    }
}

proof fn lemma_enc_tasks_snoc(ts: Seq<TaskV>, x: TaskV)
    ensures
        enc_tasks(ts.push(x)) == if ts.len() == 0 {
            enc_task(x)
        } else {
            enc_tasks(ts) + seq![','] + enc_tasks(seq![x])
        },
    decreases ts.len(),
{
    let p = ts.push(x);
    assert(enc_tasks(seq![x]) == enc_task(x));
    if ts.len() == 0 {
        assert(p.len() == 1 && p[0] == x);
    } else if ts.len() == 1 {
        assert(p.skip(1) =~= seq![x]);
        assert(enc_tasks(p) == enc_task(ts[0]) + seq![','] + enc_task(x));
    } else {
        assert(p.skip(1) =~= ts.skip(1).push(x));
        lemma_enc_tasks_snoc(ts.skip(1), x);
        assert(enc_tasks(p) == enc_task(ts[0]) + seq![','] + ((enc_tasks(ts.skip(1)) + seq![','])
            + enc_task(x)));
        assert(enc_task(ts[0]) + seq![','] + ((enc_tasks(ts.skip(1)) + seq![',']) + enc_task(x))
            =~= (enc_task(ts[0]) + seq![','] + enc_tasks(ts.skip(1))) + seq![','] + enc_task(x));
    }
}

// ---------------------------------------------------------------------------
// Rendering a state as its document.
// ---------------------------------------------------------------------------
/// Appends the escaped body of a quoted string.
fn push_escaped(out: &mut String, s: &str)
    ensures
        final(out)@ == old(out)@ + esc(s@),
{
    let n = s.unicode_len();
    let mut i: usize = 0;
    while i < n
        invariant
            0 <= i <= n,
            n == s@.len(),
            out@ == old(out)@ + esc(s@.take(i as int)),
        decreases n - i,
    {
        let c = s.get_char(i);
        if c == '"' || c == '\\' {
            push_char(out, '\\');
        }
        push_char(out, c);
        proof {
            assert(s@.take(i + 1) =~= s@.take(i as int).push(c));
            lemma_esc_snoc(s@.take(i as int), c);
            assert(old(out)@ + esc(s@.take(i as int)) + esc_char(c) =~= old(out)@ + esc(
                s@.take(i + 1),
            ));
        }
        i += 1;
    }
    proof {
        assert(s@.take(n as int) =~= s@);
    }
}

/// Appends a whole quoted string.
fn push_quoted(out: &mut String, s: &str)
    ensures
        final(out)@ == old(out)@ + enc_str(s@),
{
    push_char(out, '"');
    push_escaped(out, s);
    push_char(out, '"');
    proof {
        assert(old(out)@ + seq!['"'] + esc(s@) + seq!['"'] =~= old(out)@ + enc_str(s@));
    }
}

/// Appends one task object.
fn push_task(out: &mut String, t: &Task)
    ensures
        final(out)@ == old(out)@ + enc_task(t@),
{
    out.append("{\"name\":");
    push_quoted(out, t.name.as_str());
    out.append(",\"accumulated\":");
    push_dec(out, t.accumulated);
    out.append("}");
    proof {
        assert(old(out)@ + "{\"name\":"@ + enc_str(t.name@) + ",\"accumulated\":"@ + dec(
            t.accumulated as nat,
        ) + "}"@ =~= old(out)@ + enc_task(t@));
    }
}

/// Renders `st` as the persisted document.
pub fn save(st: &AppState) -> (out: String)
    ensures
        out@ == doc(st@),
{
    let mut out = String::new();
    out.append("{\"tasks\":[");
    let ghost tvs = views_of(st.tasks@);
    let n = st.tasks.len();
    let mut i: usize = 0;
    while i < n
        invariant
            0 <= i <= n,
            n == st.tasks@.len(),
            tvs == views_of(st.tasks@),
            out@ == "{\"tasks\":["@ + enc_tasks(tvs.take(i as int)),
        decreases n - i,
    {
        if i > 0 {
            push_char(&mut out, ',');
        }
        push_task(&mut out, &st.tasks[i]);
        proof {
            assert(tvs.take(i + 1) =~= tvs.take(i as int).push(tvs[i as int]));
            lemma_enc_tasks_snoc(tvs.take(i as int), tvs[i as int]);
            if i == 0 {
                assert("{\"tasks\":["@ + Seq::<char>::empty() + enc_task(tvs[0]) =~= "{\"tasks\":["@
                    + enc_tasks(tvs.take(1)));
            } else {
                assert("{\"tasks\":["@ + enc_tasks(tvs.take(i as int)) + seq![','] + enc_task(
                    tvs[i as int],
                ) =~= "{\"tasks\":["@ + enc_tasks(tvs.take(i + 1)));
            }
        }
        i += 1;
    }
    proof {
        assert(tvs.take(n as int) =~= tvs);
    }
    out.append("],\"selected\":");
    match st.selected {
        None => out.append("null"),
        Some(i) => push_dec(&mut out, i as u64),
    }
    out.append(",\"new_task_name\":");
    push_quoted(&mut out, st.new_task_name.as_str());
    out.append("}");
    proof {
        assert(out@ =~= doc(st@));
    }
    out
}

// ---------------------------------------------------------------------------
// The document's grammar, scanning side: deterministic spec-level readers
// that take a suffix of the document and give back what they read and how
// many characters it took.
// ---------------------------------------------------------------------------
pub open spec fn starts_with(t: Seq<char>, p: Seq<char>) -> bool {
    t.len() >= p.len() && t.take(p.len() as int) == p
}

/// Reads a quoted string's body after its opening quote, up to and including
/// the closing quote, undoing the escapes.
pub open spec fn scan_str_body(t: Seq<char>) -> Option<(Seq<char>, nat)>
    decreases t.len(),
{
    if t.len() == 0 {
        None
    } else if t[0] == '"' {
        Some((Seq::empty(), 1))
    } else if t[0] == '\\' {
        if t.len() >= 2 && (t[1] == '"' || t[1] == '\\') {
            match scan_str_body(t.skip(2)) {
                None => None,
                Some((s, k)) => Some((seq![t[1]] + s, k + 2)),
            }
        } else {
            None
        }
    } else {
        match scan_str_body(t.skip(1)) {
            None => None,
            Some((s, k)) => Some((seq![t[0]] + s, k + 1)),
        }
    }
}

/// Reads a whole quoted string.
pub open spec fn scan_string(t: Seq<char>) -> Option<(Seq<char>, nat)> {
    if t.len() >= 1 && t[0] == '"' {
        match scan_str_body(t.skip(1)) {
            None => None,
            Some((s, k)) => Some((s, k + 1)),
        }
    } else {
        None
    }
}

/// Reads the longest digit prefix as a number; no digits, a superfluous
/// leading zero, or a value past `u64::MAX` all refuse.
pub open spec fn scan_u64(t: Seq<char>) -> Option<(u64, nat)> {
    let k = digit_run(t);
    if k == 0 {
        None
    } else if t[0] == '0' && k > 1 {
        None
    } else if val(t.take(k as int)) > u64::MAX {
        None
    } else {
        Some((val(t.take(k as int)) as u64, k))
    }
}

/// Reads one task object.
#[verifier::opaque]
pub open spec fn scan_task(t: Seq<char>) -> Option<(TaskV, nat)> {
    if !starts_with(t, "{\"name\":"@) {
        None
    } else {
        let t1 = t.skip("{\"name\":"@.len() as int);
        match scan_string(t1) {
            None => None,
            Some((nm, k1)) => {
                let t2 = t1.skip(k1 as int);
                if !starts_with(t2, ",\"accumulated\":"@) {
                    None
                } else {
                    let t3 = t2.skip(",\"accumulated\":"@.len() as int);
                    match scan_u64(t3) {
                        None => None,
                        Some((n, k2)) => {
                            let t4 = t3.skip(k2 as int);
                            if starts_with(t4, "}"@) {
                                Some(
                                    (
                                        TaskV { name: nm, accumulated: n },
                                        ("{\"name\":"@.len() + k1 + ",\"accumulated\":"@.len() + k2
                                            + "}"@.len()) as nat,
                                    ),
                                )
                            } else {
                                None
                            }
                        },
                    }
                }
            },
        }
    }
}

/// Reads the task list after its opening bracket, up to and including the
/// closing bracket.
pub open spec fn scan_tasks(t: Seq<char>) -> Option<(Seq<TaskV>, nat)>
    decreases t.len(),
{
    if t.len() == 0 {
        None
    } else if t[0] == ']' {
        Some((Seq::empty(), 1))
    } else {
        match scan_task(t) {
            None => None,
            Some((task, k)) => {
                if !(1 <= k && k < t.len()) {
                    None
                } else if t[k as int] == ']' {
                    Some((seq![task], k + 1))
                } else if t[k as int] == ',' {
                    match scan_tasks(t.skip(k + 1 as int)) {
                        None => None,
                        Some((rest, k2)) => Some((seq![task] + rest, k + 1 + k2)),
                    }
                } else {
                    None
                }
            },
        }
    }
}

/// Reads the selection: `null` or a decimal index.
pub open spec fn scan_sel(t: Seq<char>) -> Option<(Option<u64>, nat)> {
    if starts_with(t, "null"@) {
        Some((None, "null"@.len()))
    } else {
        match scan_u64(t) {
            None => None,
            Some((n, k)) => Some((Some(n), k)),
        }
    }
}

/// Reads a whole document: anything but a complete, well-formed document
/// (a selection past the list included) refuses.
pub open spec fn scan_doc(t: Seq<char>) -> Option<StateV> {
    if !starts_with(t, "{\"tasks\":["@) {
        None
    } else {
        let t1 = t.skip("{\"tasks\":["@.len() as int);
        match scan_tasks(t1) {
            None => None,
            Some((ts, k1)) => {
                let t2 = t1.skip(k1 as int);
                if !starts_with(t2, ",\"selected\":"@) {
                    None
                } else {
                    let t3 = t2.skip(",\"selected\":"@.len() as int);
                    match scan_sel(t3) {
                        None => None,
                        Some((sel, k2)) => {
                            let t4 = t3.skip(k2 as int);
                            if !starts_with(t4, ",\"new_task_name\":"@) {
                                None
                            } else {
                                let t5 = t4.skip(",\"new_task_name\":"@.len() as int);
                                match scan_string(t5) {
                                    None => None,
                                    Some((d, k3)) => {
                                        let t6 = t5.skip(k3 as int);
                                        if t6 == "}"@ {
                                            match sel {
                                                None => Some(
                                                    StateV { tasks: ts, selected: None, draft: d },
                                                ),
                                                Some(n) => if (n as nat) < ts.len() {
                                                    Some(
                                                        StateV {
                                                            tasks: ts,
                                                            selected: Some(n as usize),
                                                            draft: d,
                                                        },
                                                    )
                                                } else {
                                                    None
                                                },
                                            }
                                        } else {
                                            None
                                        }
                                    },
                                }
                            }
                        },
                    }
                }
            },
        }
    }
}

/// What `load` yields for a given document text: the scanned state, or the
/// default when the text does not scan.
pub open spec fn spec_load(t: Seq<char>) -> StateV {
    match scan_doc(t) {
        Some(s) => s,
        None => default_state(),
    }
}

// ---------------------------------------------------------------------------
// Scanning undoes encoding.
// ---------------------------------------------------------------------------
proof fn lemma_prefix(a: Seq<char>, b: Seq<char>)
    ensures
        starts_with(a + b, a),
        (a + b).skip(a.len() as int) == b,
{
    assert((a + b).take(a.len() as int) =~= a);
    assert((a + b).skip(a.len() as int) =~= b);
}

proof fn lemma_scan_str_body_rt(s: Seq<char>, rest: Seq<char>)
    ensures
        scan_str_body(esc(s) + seq!['"'] + rest) == Some((s, (esc(s).len() + 1) as nat)),
    decreases s.len(),
{
    let t = esc(s) + seq!['"'] + rest;
    if s.len() == 0 {
        assert(t =~= seq!['"'] + rest);
        assert(t[0] == '"');
        assert(s =~= Seq::<char>::empty());
    } else {
        let c = s[0];
        let tail = s.skip(1);
        assert(esc(s) == esc_char(c) + esc(tail));
        lemma_scan_str_body_rt(tail, rest);
        if c == '"' || c == '\\' {
            assert(t[0] == '\\' && t[1] == c);
            assert(t.skip(2) =~= esc(tail) + seq!['"'] + rest);
            assert(seq![t[1]] + tail =~= s);
        } else {
            assert(t[0] == c);
            assert(t.skip(1) =~= esc(tail) + seq!['"'] + rest);
            assert(seq![t[0]] + tail =~= s);
        }
    }
}

proof fn lemma_scan_string_rt(s: Seq<char>, rest: Seq<char>)
    ensures
        scan_string(enc_str(s) + rest) == Some((s, enc_str(s).len())),
        enc_str(s).len() == esc(s).len() + 2,
{
    let t = enc_str(s) + rest;
    assert(t[0] == '"');
    assert(t.skip(1) =~= esc(s) + seq!['"'] + rest);
    lemma_scan_str_body_rt(s, rest);
}

proof fn lemma_scan_u64_rt(n: u64, rest: Seq<char>)
    requires
        rest.len() == 0 || !is_digit(rest[0]),
    ensures
        scan_u64(dec(n as nat) + rest) == Some((n, dec(n as nat).len())),
{
    let d = dec(n as nat);
    let t = d + rest;
    lemma_dec_props(n as nat);
    lemma_digit_run_of(d, rest);
    assert(digit_run(t) == d.len());
    assert(t[0] == d[0]);
    assert(t.take(d.len() as int) =~= d);
    if n == 0 {
        assert(d.len() == 1);
    } else {
        assert(d[0] != '0');
    }
}

proof fn lemma_scan_task_rt(x: TaskV, rest: Seq<char>)
    ensures
        scan_task(enc_task(x) + rest) == Some((x, enc_task(x).len())),
        enc_task(x).len() >= 1,
{
    reveal(scan_task);
    let l1 = "{\"name\":"@;
    let l2 = ",\"accumulated\":"@;
    let l3 = "}"@;
    let nm = enc_str(x.name);
    let num = dec(x.accumulated as nat);
    let t = enc_task(x) + rest;
    assert(t =~= l1 + (nm + (l2 + (num + (l3 + rest)))));
    lemma_prefix(l1, nm + (l2 + (num + (l3 + rest))));
    let t1 = t.skip(l1.len() as int);
    lemma_scan_string_rt(x.name, l2 + (num + (l3 + rest)));
    let t2 = t1.skip(nm.len() as int);
    lemma_prefix(nm, l2 + (num + (l3 + rest)));
    assert(t2 == l2 + (num + (l3 + rest)));
    lemma_prefix(l2, num + (l3 + rest));
    let t3 = t2.skip(l2.len() as int);
    assert(t3 == num + (l3 + rest));
    reveal_strlit("}");
    assert(l3.len() == 1 && l3[0] == '}');
    assert((l3 + rest)[0] == '}');
    assert(!is_digit('}'));
    lemma_scan_u64_rt(x.accumulated, l3 + rest);
    let t4 = t3.skip(num.len() as int);
    lemma_prefix(num, l3 + rest);
    assert(t4 == l3 + rest);
    lemma_prefix(l3, rest);
    assert(starts_with(t4, l3));
    assert(TaskV { name: x.name, accumulated: x.accumulated } =~= x);
    reveal_strlit("{\"name\":");
    assert(enc_task(x).len() == l1.len() + nm.len() + l2.len() + num.len() + l3.len());
}

/// One list element and whatever follows it: the scanner reads exactly the
/// element, and the element does not begin like the list's closing bracket.
proof fn lemma_scan_tasks_head(x: TaskV, after: Seq<char>)
    ensures
        scan_task(enc_task(x) + after) == Some((x, enc_task(x).len())),
        enc_task(x).len() >= 1,
        (enc_task(x) + after)[0] == '{',
        (enc_task(x) + after).skip(enc_task(x).len() as int) == after,
{
    lemma_scan_task_rt(x, after);
    reveal_strlit("{\"name\":");
    assert(enc_task(x)[0] == "{\"name\":"@[0]);
    lemma_prefix(enc_task(x), after);
}

#[verifier::rlimit(100)]
proof fn lemma_scan_tasks_rt(ts: Seq<TaskV>, rest: Seq<char>)
    ensures
        scan_tasks(enc_tasks(ts) + seq![']'] + rest) == Some(
            (ts, (enc_tasks(ts).len() + 1) as nat),
        ),
    decreases ts.len(),
{
    let t = enc_tasks(ts) + seq![']'] + rest;
    if ts.len() == 0 {
        assert(t =~= seq![']'] + rest);
        assert(t[0] == ']');
        assert(ts =~= Seq::<TaskV>::empty());
    } else {
        let x = ts[0];
        let e0 = enc_task(x);
        if ts.len() == 1 {
            let after = seq![']'] + rest;
            assert(t =~= e0 + after);
            lemma_scan_tasks_head(x, after);
            let k = e0.len();
            assert(t[0] != ']');
            assert(t[k as int] == t.skip(k as int)[0]);
            assert(t[k as int] == ']');
            assert(seq![x] =~= ts);
        } else {
            let tail = ts.skip(1);
            let after = seq![','] + (enc_tasks(tail) + seq![']'] + rest);
            assert(enc_tasks(ts) == e0 + seq![','] + enc_tasks(tail));
            assert(t =~= e0 + after);
            lemma_scan_tasks_head(x, after);
            let k = e0.len();
            assert(t[0] != ']');
            assert(t[k as int] == t.skip(k as int)[0]);
            assert(t[k as int] == ',');
            assert(t[k as int] != ']');
            assert(t.skip(k + 1 as int) =~= enc_tasks(tail) + seq![']'] + rest);
            lemma_scan_tasks_rt(tail, rest);
            assert(seq![x] + tail =~= ts);
        }
    }
}

// ---------------------------------------------------------------------------
// Reading a document back, executably: each reader returns exactly what the
// corresponding scanner says of the input.
// ---------------------------------------------------------------------------
fn is_digit_ch(c: char) -> (b: bool)
    ensures
        b == is_digit(c),
{
    c == '0' || c == '1' || c == '2' || c == '3' || c == '4' || c == '5' || c == '6' || c == '7'
        || c == '8' || c == '9'
}

fn char_digit(c: char) -> (d: u64)
    ensures
        d as nat == digit_val(c),
{
    if c == '0' {
        0
    } else if c == '1' {
        1
    } else if c == '2' {
        2
    } else if c == '3' {
        3
    } else if c == '4' {
        4
    } else if c == '5' {
        5
    } else if c == '6' {
        6
    } else if c == '7' {
        7
    } else if c == '8' {
        8
    } else if c == '9' {
        9
    } else {
        10
    }
}

/// Consumes the literal `pat` at position `i`, or reports that it is not
/// there.
fn expect_lit(v: &Vec<char>, i: usize, pat: &str) -> (r: Option<usize>)
    requires
        i <= v@.len(),
    ensures
        match r {
            Some(j) => i <= j <= v@.len() && j - i == pat@.len() && starts_with(
                v@.skip(i as int),
                pat@,
            ),
            None => !starts_with(v@.skip(i as int), pat@),
        },
{
    let n = pat.unicode_len();
    if n > v.len() - i {
        return None;
    }
    let mut k: usize = 0;
    while k < n
        invariant
            0 <= k <= n,
            n == pat@.len(),
            i + n <= v@.len(),
            v@.len() <= usize::MAX,
            forall|m: int| 0 <= m < k ==> v@[i + m] == pat@[m],
        decreases n - k,
    {
        let c = pat.get_char(k);
        if v[i + k] != c {
            proof {
                if starts_with(v@.skip(i as int), pat@) {
                    assert(v@.skip(i as int).take(n as int)[k as int] == pat@[k as int]);
                    assert(v@.skip(i as int)[k as int] == v@[i + k]);
                }
            }
            return None;
        }
        k += 1;
    }
    proof {
        assert(v@.skip(i as int).take(n as int) =~= pat@);
    }
    Some(i + n)
}

/// Reads a decimal number at position `i`, exactly as `scan_u64` does.
fn parse_u64(v: &Vec<char>, i: usize) -> (r: Option<(u64, usize)>)
    requires
        i <= v@.len(),
    ensures
        match scan_u64(v@.skip(i as int)) {
            None => r is None,
            Some((n, k)) => r matches Some(p) && p.0 == n && p.1 == i + k && p.1 <= v@.len(),
        },
{
    let ghost t = v@.skip(i as int);
    let mut j: usize = i;
    while j < v.len() && is_digit_ch(v[j])
        invariant
            i <= j <= v@.len(),
            forall|m: int| i <= m < j ==> is_digit(v@[m]),
        decreases v@.len() - j,
    {
        j += 1;
    }
    let ghost run = v@.subrange(i as int, j as int);
    proof {
        assert(t =~= run + v@.skip(j as int));
        assert(all_digits(run));
        lemma_digit_run_of(run, v@.skip(j as int));
        assert(digit_run(t) == j - i);
        assert(t.take((j - i) as int) =~= run);
    }
    if j == i {
        return None;
    }
    if v[i] == '0' && j - i > 1 {
        proof {
            assert(t[0] == v@[i as int]);
        }
        return None;
    }
    let ghost k = (j - i) as nat;
    let mut acc: u64 = 0;
    let mut m: usize = i;
    proof {
        assert(t.take(0) =~= Seq::<char>::empty());
    }
    while m < j
        invariant
            i <= m <= j <= v@.len(),
            t == v@.skip(i as int),
            k == j - i,
            digit_run(t) == k,
            t.take(k as int) == v@.subrange(i as int, j as int),
            all_digits(v@.subrange(i as int, j as int)),
            forall|mm: int| i <= mm < j ==> is_digit(v@[mm]),
            acc as nat == val(t.take((m - i) as int)),
        decreases j - m,
    {
        let d = char_digit(v[m]);
        proof {
            assert(t[(m - i) as int] == v@[m as int]);
            assert(is_digit(v@[m as int]));
            assert(d < 10);
            assert(t.take((m - i) + 1) =~= t.take((m - i) as int).push(t[(m - i) as int]));
            lemma_val_snoc(t.take((m - i) as int), t[(m - i) as int]);
            assert(val(t.take((m - i) + 1)) == (acc as nat) * 10 + digit_val(v@[m as int]));
        }
        let a10 = match acc.checked_mul(10) {
            Some(x) => x,
            None => {
                proof {
                    lemma_val_prefix(t.take(k as int), (m - i) + 1);
                    assert(t.take(k as int).take((m - i) + 1) =~= t.take((m - i) + 1));
                    assert(val(t.take(k as int)) > u64::MAX);
                }
                return None;
            },
        };
        let a = match a10.checked_add(d) {
            Some(x) => x,
            None => {
                proof {
                    lemma_val_prefix(t.take(k as int), (m - i) + 1);
                    assert(t.take(k as int).take((m - i) + 1) =~= t.take((m - i) + 1));
                    assert(val(t.take(k as int)) > u64::MAX);
                }
                return None;
            },
        };
        acc = a;
        m += 1;
    }
    proof {
        assert(t.take((m - i) as int) == t.take(k as int));
        assert(val(t.take(k as int)) == acc as nat);
        assert(val(t.take(k as int)) <= u64::MAX);
    }
    Some((acc, j))
}

/// Reads a quoted string's body after the opening quote, appending the
/// unescaped characters to `out`, exactly as `scan_str_body` does.
fn parse_str_body(v: &Vec<char>, i: usize, out: &mut String) -> (r: Option<usize>)
    requires
        i <= v@.len(),
    ensures
        match scan_str_body(v@.skip(i as int)) {
            None => r is None,
            Some((s, k)) => r matches Some(j) && j == i + k && j <= v@.len() && final(out)@
                == old(out)@ + s,
        },
    decreases v@.len() - i,
{
    let ghost t = v@.skip(i as int);
    if i >= v.len() {
        return None;
    }
    let c = v[i];
    proof {
        assert(t[0] == c);
    }
    if c == '"' {
        proof {
            assert(old(out)@ + Seq::<char>::empty() =~= old(out)@);
        }
        Some(i + 1)
    } else if c == '\\' {
        if i + 1 < v.len() && (v[i + 1] == '"' || v[i + 1] == '\\') {
            let e = v[i + 1];
            proof {
                assert(t.len() >= 2 && t[1] == e);
                assert(t.skip(2) =~= v@.skip(i + 2));
            }
            push_char(out, e);
            match parse_str_body(v, i + 2, out) {
                None => None,
                Some(j) => {
                    proof {
                        match scan_str_body(t.skip(2)) {
                            None => {
                                assert(false);
                            },
                            Some((s2, k2)) => {
                                assert(old(out)@ + seq![e] + s2 =~= old(out)@ + (seq![t[1]] + s2));
                            },
                        }
                    }
                    Some(j)
                },
            }
        } else {
            proof {
                assert(t.len() >= 2 ==> t[1] == v@[i + 1]);
            }
            None
        }
    } else {
        push_char(out, c);
        proof {
            assert(t.skip(1) =~= v@.skip(i + 1));
        }
        match parse_str_body(v, i + 1, out) {
            None => None,
            Some(j) => {
                proof {
                    match scan_str_body(t.skip(1)) {
                        None => {
                            assert(false);
                        },
                        Some((s2, k2)) => {
                            assert(old(out)@ + seq![c] + s2 =~= old(out)@ + (seq![t[0]] + s2));
                        },
                    }
                }
                Some(j)
            },
        }
    }
}

/// Reads a whole quoted string, exactly as `scan_string` does.
fn parse_string(v: &Vec<char>, i: usize) -> (r: Option<(String, usize)>)
    requires
        i <= v@.len(),
    ensures
        match scan_string(v@.skip(i as int)) {
            None => r is None,
            Some((s, k)) => r matches Some(p) && p.0@ == s && p.1 == i + k && p.1 <= v@.len(),
        },
{
    let ghost t = v@.skip(i as int);
    if i < v.len() && v[i] == '"' {
        proof {
            assert(t[0] == '"');
            assert(t.skip(1) =~= v@.skip(i + 1));
        }
        let mut out = String::new();
        match parse_str_body(v, i + 1, &mut out) {
            None => None,
            Some(j) => Some((out, j)),
        }
    } else {
        None
    }
}

/// Reads one task object, exactly as `scan_task` does.
fn parse_task(v: &Vec<char>, i: usize) -> (r: Option<(Task, usize)>)
    requires
        i <= v@.len(),
    ensures
        match scan_task(v@.skip(i as int)) {
            None => r is None,
            Some((tv, k)) => r matches Some(p) && p.0@ == tv && p.1 == i + k && p.1 <= v@.len(),
        },
{
    proof {
        reveal(scan_task);
    }
    let ghost t = v@.skip(i as int);
    let j1 = match expect_lit(v, i, "{\"name\":") {
        Some(j) => j,
        None => {
            return None;
        },
    };
    proof {
        assert(v@.skip(j1 as int) =~= t.skip("{\"name\":"@.len() as int));
    }
    let (name, j2) = match parse_string(v, j1) {
        Some(p) => p,
        None => {
            return None;
        },
    };
    proof {
        match scan_string(t.skip("{\"name\":"@.len() as int)) {
            None => {
                assert(false);
            },
            Some((nm, k1)) => {
                assert(v@.skip(j2 as int) =~= t.skip("{\"name\":"@.len() as int).skip(k1 as int));
            },
        }
    }
    let j3 = match expect_lit(v, j2, ",\"accumulated\":") {
        Some(j) => j,
        None => {
            return None;
        },
    };
    proof {
        assert(v@.skip(j3 as int) =~= v@.skip(j2 as int).skip(",\"accumulated\":"@.len() as int));
    }
    let (num, j4) = match parse_u64(v, j3) {
        Some(p) => p,
        None => {
            return None;
        },
    };
    proof {
        match scan_u64(v@.skip(j3 as int)) {
            None => {
                assert(false);
            },
            Some((n, k2)) => {
                assert(v@.skip(j4 as int) =~= v@.skip(j3 as int).skip(k2 as int));
            },
        }
    }
    let j5 = match expect_lit(v, j4, "}") {
        Some(j) => j,
        None => {
            return None;
        },
    };
    let task = Task { name, accumulated: num };
    proof {
        match scan_task(t) {
            None => {
                assert(false);
            },
            Some((tv, k)) => {
                assert(task@ =~= tv);
            },
        }
    }
    Some((task, j5))
}

/// Reads the task list after its opening bracket, appending the tasks to
/// `acc`, exactly as `scan_tasks` does.
fn parse_tasks(v: &Vec<char>, i: usize, acc: &mut Vec<Task>) -> (r: Option<usize>)
    requires
        i <= v@.len(),
    ensures
        match scan_tasks(v@.skip(i as int)) {
            None => r is None,
            Some((ts, k)) => r matches Some(j) && j == i + k && j <= v@.len() && views_of(
                final(acc)@,
            ) == views_of(old(acc)@) + ts,
        },
    decreases v@.len() - i,
{
    let ghost t = v@.skip(i as int);
    if i >= v.len() {
        return None;
    }
    if v[i] == ']' {
        proof {
            assert(t[0] == ']');
            assert(views_of(acc@) + Seq::<TaskV>::empty() =~= views_of(acc@));
        }
        return Some(i + 1);
    }
    proof {
        assert(t[0] == v@[i as int]);
    }
    let (task, j) = match parse_task(v, i) {
        Some(p) => p,
        None => {
            return None;
        },
    };
    let ghost tv = task@;
    let ghost k = (j - i) as nat;
    proof {
        match scan_task(t) {
            None => {
                assert(false);
            },
            Some((tv2, k2)) => {
                reveal(scan_task);
                reveal_strlit("}");
                assert(k2 >= 1);
            },
        }
    }
    if j >= v.len() {
        return None;
    }
    let ghost pre = acc@;
    acc.push(task);
    proof {
        assert(views_of(pre.push(task)) =~= views_of(pre).push(tv));
    }
    if v[j] == ']' {
        proof {
            assert(t[k as int] == v@[j as int]);
            assert(views_of(pre).push(tv) =~= views_of(pre) + seq![tv]);
        }
        return Some(j + 1);
    }
    if v[j] == ',' {
        proof {
            assert(t[k as int] == v@[j as int]);
            assert(t.skip(k + 1 as int) =~= v@.skip(j + 1));
        }
        match parse_tasks(v, j + 1, acc) {
            None => {
                return None;
            },
            Some(jj) => {
                proof {
                    match scan_tasks(t.skip(k + 1 as int)) {
                        None => {
                            assert(false);
                        },
                        Some((ts2, kk2)) => {
                            assert(views_of(pre).push(tv) + ts2 =~= views_of(pre) + (seq![tv]
                                + ts2));
                        },
                    }
                }
                return Some(jj);
            },
        }
    }
    proof {
        assert(t[k as int] == v@[j as int]);
    }
    None
}

/// Reads the selection, exactly as `scan_sel` does.
fn parse_sel(v: &Vec<char>, i: usize) -> (r: Option<(Option<u64>, usize)>)
    requires
        i <= v@.len(),
    ensures
        match scan_sel(v@.skip(i as int)) {
            None => r is None,
            Some((sel, k)) => r matches Some(p) && p.0 == sel && p.1 == i + k && p.1 <= v@.len(),
        },
{
    match expect_lit(v, i, "null") {
        Some(j) => Some((None, j)),
        None => {
            match parse_u64(v, i) {
                Some((n, j)) => Some((Some(n), j)),
                None => None,
            }
        },
    }
}

/// Reads a whole document, exactly as `scan_doc` does.
fn parse_doc(v: &Vec<char>) -> (r: Option<AppState>)
    ensures
        match scan_doc(v@) {
            None => r is None,
            Some(s) => r matches Some(st) && st@ == s && st.wf(),
        },
{
    let ghost t = v@;
    proof {
        assert(v@.skip(0) =~= t);
    }
    let j1 = match expect_lit(v, 0, "{\"tasks\":[") {
        Some(j) => j,
        None => {
            return None;
        },
    };
    proof {
        assert(v@.skip(j1 as int) =~= t.skip("{\"tasks\":["@.len() as int));
    }
    let mut tasks: Vec<Task> = Vec::new();
    let j2 = match parse_tasks(v, j1, &mut tasks) {
        Some(j) => j,
        None => {
            return None;
        },
    };
    proof {
        match scan_tasks(t.skip("{\"tasks\":["@.len() as int)) {
            None => {
                assert(false);
            },
            Some((ts, k1)) => {
                assert(v@.skip(j2 as int) =~= t.skip("{\"tasks\":["@.len() as int).skip(k1 as int));
                assert(views_of(Seq::<Task>::empty()) + ts =~= ts);
            },
        }
    }
    let j3 = match expect_lit(v, j2, ",\"selected\":") {
        Some(j) => j,
        None => {
            return None;
        },
    };
    proof {
        assert(v@.skip(j3 as int) =~= v@.skip(j2 as int).skip(",\"selected\":"@.len() as int));
    }
    let (sel, j4) = match parse_sel(v, j3) {
        Some(p) => p,
        None => {
            return None;
        },
    };
    proof {
        match scan_sel(v@.skip(j3 as int)) {
            None => {
                assert(false);
            },
            Some((s2, k2)) => {
                assert(v@.skip(j4 as int) =~= v@.skip(j3 as int).skip(k2 as int));
            },
        }
    }
    let j5 = match expect_lit(v, j4, ",\"new_task_name\":") {
        Some(j) => j,
        None => {
            return None;
        },
    };
    proof {
        assert(v@.skip(j5 as int) =~= v@.skip(j4 as int).skip(",\"new_task_name\":"@.len() as int));
    }
    let (draft, j6) = match parse_string(v, j5) {
        Some(p) => p,
        None => {
            return None;
        },
    };
    proof {
        match scan_string(v@.skip(j5 as int)) {
            None => {
                assert(false);
            },
            Some((d, k3)) => {
                assert(v@.skip(j6 as int) =~= v@.skip(j5 as int).skip(k3 as int));
            },
        }
    }
    let j7 = match expect_lit(v, j6, "}") {
        Some(j) => j,
        None => {
            proof {
                if v@.skip(j6 as int) == "}"@ {
                    assert(v@.skip(j6 as int).take("}"@.len() as int) =~= v@.skip(j6 as int));
                }
            }
            return None;
        },
    };
    if j7 != v.len() {
        proof {
            assert(v@.skip(j6 as int).len() > "}"@.len());
        }
        return None;
    }
    proof {
        assert(v@.skip(j6 as int).take("}"@.len() as int) =~= v@.skip(j6 as int));
    }
    let selected: Option<usize> = match sel {
        None => None,
        Some(n) => {
            if n < tasks.len() as u64 {
                Some(n as usize)
            } else {
                return None;
            }
        },
    };
    let st = AppState { tasks, selected, new_task_name: draft };
    proof {
        match scan_doc(t) {
            None => {
                assert(false);
            },
            Some(s) => {
                assert(st@ =~= s);
            },
        }
    }
    Some(st)
}

/// Reads a persisted document back into a state: the scanned state when the
/// text is a well-formed document, the empty default otherwise.
pub fn load(text: &str) -> (st: AppState)
    ensures
        st@ == spec_load(text@),
        st.wf(),
{
    let chars = str_chars(text);
    match parse_doc(&chars) {
        Some(st) => st,
        None => AppState::new(),
    }
}

/// The state to start from, given the persisted file's text or nothing at
/// all: a missing file yields the same empty default as an unreadable one.
pub fn load_or_default(content: Option<&str>) -> (st: AppState)
    ensures
        match content {
            Some(text) => st@ == spec_load(text@),
            None => st@ == default_state(),
        },
        st.wf(),
{
    match content {
        Some(text) => load(text),
        None => AppState::new(),
    }
}

/// Saving and loading are inverse: the document a well-formed state renders
/// to scans back to exactly that state, so a persisted store survives a
/// restart unchanged.
#[verifier::rlimit(100)]
pub proof fn lemma_save_load_round_trip(s: StateV)
    requires
        s.wf(),
    ensures
        scan_doc(doc(s)) == Some(s),
        spec_load(doc(s)) == s,
{
    let lh = "{\"tasks\":["@;
    let lsel = ",\"selected\":"@;
    let lbr = "],\"selected\":"@;
    let ldr = ",\"new_task_name\":"@;
    let lend = "}"@;
    let t = doc(s);
    reveal_strlit("],\"selected\":");
    reveal_strlit(",\"selected\":");
    assert(lbr =~= seq![']'] + lsel);
    let mid = enc_sel(s.selected) + (ldr + (enc_str(s.draft) + lend));
    assert(t =~= lh + ((enc_tasks(s.tasks) + seq![']'] + (lsel + mid))));
    lemma_prefix(lh, enc_tasks(s.tasks) + seq![']'] + (lsel + mid));
    let t1 = t.skip(lh.len() as int);
    assert(t1 == enc_tasks(s.tasks) + seq![']'] + (lsel + mid));
    lemma_scan_tasks_rt(s.tasks, lsel + mid);
    let k1 = (enc_tasks(s.tasks).len() + 1) as int;
    let t2 = t1.skip(k1);
    assert(t2 =~= lsel + mid);
    lemma_prefix(lsel, mid);
    let t3 = t2.skip(lsel.len() as int);
    assert(t3 == mid);
    reveal_strlit(",\"new_task_name\":");
    reveal_strlit("null");
    match s.selected {
        None => {
            lemma_prefix("null"@, ldr + (enc_str(s.draft) + lend));
            assert(enc_sel(s.selected) == "null"@);
            assert(starts_with(t3, "null"@));
            assert(scan_sel(t3) == Some((Option::<u64>::None, "null"@.len())));
        },
        Some(i) => {
            let d = dec(i as nat);
            lemma_dec_props(i as nat);
            assert((ldr + (enc_str(s.draft) + lend))[0] == ',');
            assert(!is_digit(','));
            assert(t3 =~= d + (ldr + (enc_str(s.draft) + lend)));
            lemma_scan_u64_rt(i as u64, ldr + (enc_str(s.draft) + lend));
            assert(t3[0] == d[0]);
            assert(is_digit(t3[0]));
            assert("null"@[0] == 'n');
            assert(!starts_with(t3, "null"@));
            assert(scan_sel(t3) == Some((Some(i as u64), d.len())));
        },
    }
    match scan_sel(t3) {
        None => {
            assert(false);
        },
        Some((sel, k2v)) => {
            let t4 = t3.skip(k2v as int);
            assert(t4 =~= ldr + (enc_str(s.draft) + lend)) by {
                match s.selected {
                    None => {
                        lemma_prefix("null"@, ldr + (enc_str(s.draft) + lend));
                    },
                    Some(i) => {
                        lemma_prefix(dec(i as nat), ldr + (enc_str(s.draft) + lend));
                    },
                }
            }
            lemma_prefix(ldr, enc_str(s.draft) + lend);
            let t5 = t4.skip(ldr.len() as int);
            assert(t5 == enc_str(s.draft) + lend);
            lemma_scan_string_rt(s.draft, lend);
            let t6 = t5.skip(enc_str(s.draft).len() as int);
            lemma_prefix(enc_str(s.draft), lend);
            assert(t6 == lend);
            match s.selected {
                None => {
                    assert(scan_doc(t) == Some(StateV { tasks: s.tasks, selected: None, draft: s.draft }));
                    assert(StateV { tasks: s.tasks, selected: None, draft: s.draft } =~= s);
                },
                Some(i) => {
                    assert(sel == Some(i as u64));
                    assert(((i as u64) as nat) < s.tasks.len());
                    assert((i as u64) as usize == i);
                    assert(StateV { tasks: s.tasks, selected: Some(i), draft: s.draft } =~= s);
                },
            }
        },
    }
}

} // verus!
