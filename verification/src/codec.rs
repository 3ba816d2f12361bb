//! The text encoding of a target record: one line per record.
//!
//! A line holds, separated by single spaces: the value (a decimal number,
//! minus sign first when negative), the uncertainty, the number of policy
//! entries, then each entry as an action and a weight, and finally the raw
//! state descriptor, which runs to the end of the line. Printing a
//! well-formed record and parsing the line gives the record back.

use vstd::prelude::*;
use crate::num::{dec, is_digit, lemma_dec_digits, lemma_digits_end, lemma_val_dec,
    parse_u64_at, scan_u64, u64_to_dec};
use crate::target::{clone_bytes, policy_wf, target_wf, PolicyEntry, Target, TargetV, NEWLINE,
    UBE_SCALE, VALUE_SCALE};

verus! {

/// ASCII space, the field separator.
pub const SP: u8 = 32;

/// ASCII minus sign.
pub const MINUS: u8 = 45;

/// The printed form of a possibly negative number.
pub open spec fn dec_i(v: int) -> Seq<u8> {
    if v < 0 {
        seq![MINUS] + dec((-v) as nat)
    } else {
        dec(v as nat)
    }
}

/// The printed form of one policy entry: a space, the action, a space, the
/// weight.
pub open spec fn entry_bytes(e: PolicyEntry) -> Seq<u8> {
    seq![SP] + dec(e.action as nat) + seq![SP] + dec(e.weight as nat)
}

/// The printed form of a policy, entry after entry.
pub open spec fn entries_bytes(p: Seq<PolicyEntry>) -> Seq<u8>
    decreases p.len(),
{
    if p.len() == 0 {
        Seq::empty()
    } else {
        entry_bytes(p[0]) + entries_bytes(p.drop_first())
    }
}

/// The printed form of a whole record.
pub open spec fn spec_line(t: TargetV) -> Seq<u8> {
    dec_i(t.value) + seq![SP] + dec(t.ube as nat) + seq![SP] + dec(t.policy.len() as nat)
        + entries_bytes(t.policy) + seq![SP] + t.state
}

/// Printing distributes over concatenation of policies.
pub proof fn lemma_entries_concat(a: Seq<PolicyEntry>, b: Seq<PolicyEntry>)
    ensures
        entries_bytes(a + b) == entries_bytes(a) + entries_bytes(b),
    decreases a.len(),
{
    if a.len() == 0 {
        assert(a + b =~= b);
        assert(entries_bytes(a) + entries_bytes(b) =~= entries_bytes(b));
    } else {
        assert((a + b).drop_first() =~= a.drop_first() + b);
        assert((a + b)[0] == a[0]);
        lemma_entries_concat(a.drop_first(), b);
        assert(entries_bytes(a + b) =~= entries_bytes(a) + entries_bytes(b));
    }
}

/// What a scan for a signed number finds at position `i`.
pub open spec fn parse_i_at(s: Seq<u8>, i: int) -> Option<(int, int)> {
    if i < s.len() && s[i] == MINUS {
        match parse_u64_at(s, i + 1) {
            Some((v, j)) => Some((-v, j)),
            None => None,
        }
    } else {
        parse_u64_at(s, i)
    }
}

/// What a scan for `k` policy entries finds at position `i`.
pub open spec fn parse_entries(s: Seq<u8>, i: int, k: nat) -> Option<(Seq<PolicyEntry>, int)>
    decreases k,
{
    if k == 0 {
        Some((Seq::empty(), i))
    } else if !(i < s.len() && s[i] == SP) {
        None
    } else {
        match parse_u64_at(s, i + 1) {
            None => None,
            Some((a, j)) => if !(j < s.len() && s[j] == SP) {
                None
            } else {
                match parse_u64_at(s, j + 1) {
                    None => None,
                    Some((w, j2)) => if w > u32::MAX as int {
                        None
                    } else {
                        match parse_entries(s, j2, (k - 1) as nat) {
                            None => None,
                            Some((rest, j3)) => Some(
                                (seq![PolicyEntry { action: a as u64, weight: w as u32 }] + rest, j3),
                            ),
                        }
                    },
                }
            },
        }
    }
}

/// The rest of a parse once the policy is read: a space, then the state to
/// the end of the line; the parsed record must be well formed.
pub open spec fn parse_tail(s: Seq<u8>, p: Seq<PolicyEntry>, j: int, v: int, u: int) -> Option<
    TargetV,
> {
    if j < s.len() && s[j] == SP {
        let t = TargetV { state: s.subrange(j + 1, s.len() as int), policy: p, value: v, ube: u };
        if target_wf(t) {
            Some(t)
        } else {
            None
        }
    } else {
        None
    }
}

/// What parsing one line yields: a well-formed record, or nothing.
pub open spec fn spec_parse(s: Seq<u8>) -> Option<TargetV> {
    match parse_i_at(s, 0) {
        None => None,
        Some((v, i1)) => if !(-(VALUE_SCALE as int) <= v <= VALUE_SCALE as int) {
            None
        } else if !(i1 < s.len() && s[i1] == SP) {
            None
        } else {
            match parse_u64_at(s, i1 + 1) {
                None => None,
                Some((u, i2)) => if u > UBE_SCALE as int {
                    None
                } else if !(i2 < s.len() && s[i2] == SP) {
                    None
                } else {
                    match parse_u64_at(s, i2 + 1) {
                        None => None,
                        Some((k, i3)) => match parse_entries(s, i3, k as nat) {
                            None => None,
                            Some((p, j)) => parse_tail(s, p, j, v, u),
                        },
                    }
                },
            }
        },
    }
}

/// Where the bytes from `i` spell the numeral of `n` and the next byte, if
/// any, is no digit, the scan finds exactly `n`.
pub proof fn lemma_parse_num(s: Seq<u8>, i: int, n: nat)
    requires
        0 <= i,
        i + dec(n).len() <= s.len(),
        s.subrange(i, i + dec(n).len()) == dec(n),
        n <= u64::MAX,
        i + dec(n).len() == s.len() || !is_digit(s[i + dec(n).len()]),
    ensures
        parse_u64_at(s, i) == Some((n as int, i + dec(n).len())),
{
    lemma_dec_digits(n);
    assert forall|k: int| i <= k < i + dec(n).len() implies is_digit(#[trigger] s[k]) by {
        assert(s[k] == s.subrange(i, i + dec(n).len())[k - i]);
    }
    lemma_digits_end(s, i, i + dec(n).len());
    lemma_val_dec(n);
}

/// Where the bytes from `i` spell a printed policy and a space follows, the
/// scan finds exactly that policy.
pub proof fn lemma_parse_entries_printed(s: Seq<u8>, i: int, p: Seq<PolicyEntry>)
    requires
        0 <= i,
        i + entries_bytes(p).len() < s.len(),
        s.subrange(i, i + entries_bytes(p).len()) == entries_bytes(p),
        s[i + entries_bytes(p).len()] == SP,
    ensures
        parse_entries(s, i, p.len()) == Some((p, i + entries_bytes(p).len())),
    decreases p.len(),
{
    if p.len() == 0 {
        assert(p =~= Seq::<PolicyEntry>::empty());
        assert(entries_bytes(p).len() == 0);
    } else {
        let e = p[0];
        let rest = p.drop_first();
        let da = dec(e.action as nat);
        let dw = dec(e.weight as nat);
        let eb = entry_bytes(e);
        let rb = entries_bytes(rest);
        let total = entries_bytes(p).len();
        assert(entries_bytes(p) == eb + rb);
        assert(eb == seq![SP] + da + seq![SP] + dw);
        lemma_dec_digits(e.action as nat);
        lemma_dec_digits(e.weight as nat);
        let i1 = i + 1;
        let i2 = i1 + da.len();
        let i3 = i2 + 1;
        let i4 = i3 + dw.len();
        assert(s[i] == s.subrange(i, i + total)[0]);
        assert(s[i] == SP);
        assert(s.subrange(i1, i2) =~= da) by {
            assert forall|k: int| 0 <= k < da.len() implies s.subrange(i1, i2)[k] == da[k] by {
                assert(s.subrange(i1, i2)[k] == s.subrange(i, i + total)[1 + k]);
                assert(entries_bytes(p)[1 + k] == eb[1 + k]);
                assert(eb[1 + k] == da[k]);
            }
        }
        assert(s[i2] == s.subrange(i, i + total)[i2 - i]);
        assert(eb[i2 - i] == SP);
        assert(s[i2] == SP);
        lemma_parse_num(s, i1, e.action as nat);
        assert(s.subrange(i3, i4) =~= dw) by {
            assert forall|k: int| 0 <= k < dw.len() implies s.subrange(i3, i4)[k] == dw[k] by {
                assert(s.subrange(i3, i4)[k] == s.subrange(i, i + total)[i3 - i + k]);
                assert(entries_bytes(p)[i3 - i + k] == eb[i3 - i + k]);
                assert(eb[i3 - i + k] == dw[k]);
            }
        }
        // The byte after the weight is a space: the next entry's separator,
        // or the one that closes the policy.
        assert(s[i4] == SP) by {
            if rest.len() == 0 {
                assert(i4 == i + total);
            } else {
                assert(s[i4] == s.subrange(i, i + total)[i4 - i]);
                assert(entries_bytes(p)[i4 - i] == rb[0]);
                assert(rb == entry_bytes(rest[0]) + entries_bytes(rest.drop_first()));
                assert(rb[0] == SP);
            }
        }
        assert(!is_digit(SP));
        lemma_parse_num(s, i3, e.weight as nat);
        assert(s.subrange(i4, i4 + rb.len()) =~= rb) by {
            assert forall|k: int| 0 <= k < rb.len() implies s.subrange(i4, i4 + rb.len())[k]
                == rb[k] by {
                assert(s.subrange(i4, i4 + rb.len())[k] == s.subrange(i, i + total)[i4 - i + k]);
                assert(entries_bytes(p)[i4 - i + k] == rb[k]);
            }
        }
        assert(i4 + rb.len() == i + total);
        lemma_parse_entries_printed(s, i4, rest);
        assert(PolicyEntry { action: (e.action as nat) as u64, weight: (e.weight as nat) as u32 }
            == e);
        assert(seq![e] + rest =~= p);
        assert(parse_entries(s, i, p.len()) == Some((p, i + total)));
    }
}

/// Printing a well-formed record and parsing the line gives the record back.
pub proof fn lemma_round_trip(t: TargetV)
    requires
        target_wf(t),
        t.policy.len() <= u64::MAX,
    ensures
        spec_parse(spec_line(t)) == Some(t),
{
    let s = spec_line(t);
    let a = dec_i(t.value);
    let b = dec(t.ube as nat);
    let c = dec(t.policy.len() as nat);
    let e = entries_bytes(t.policy);
    let i1 = a.len() as int;
    let i2 = i1 + 1 + b.len();
    let i3 = i2 + 1 + c.len();
    let j = i3 + e.len();
    assert(s == a + seq![SP] + b + seq![SP] + c + e + seq![SP] + t.state);
    assert(s.len() == a.len() + 1 + b.len() + 1 + c.len() + e.len() + 1 + t.state.len());
    // The value.
    if t.value < 0 {
        let m = (-t.value) as nat;
        lemma_dec_digits(m);
        assert(a == seq![MINUS] + dec(m));
        assert(s[0] == MINUS);
        assert(s.subrange(1, 1 + dec(m).len() as int) =~= dec(m)) by {
            assert forall|k: int| 0 <= k < dec(m).len() implies s.subrange(1, 1 + dec(m).len() as int)[k]
                == dec(m)[k] by {
                assert(s[1 + k] == a[1 + k]);
            }
        }
        assert(s[i1] == SP);
        assert(!is_digit(SP));
        lemma_parse_num(s, 1, m);
        assert(parse_i_at(s, 0) == Some((t.value, i1)));
    } else {
        let m = t.value as nat;
        lemma_dec_digits(m);
        assert(a == dec(m));
        assert(s[0] == a[0]);
        assert(is_digit(s[0]));
        assert(s[0] != MINUS);
        assert(s.subrange(0, dec(m).len() as int) =~= dec(m)) by {
            assert forall|k: int| 0 <= k < dec(m).len() implies s.subrange(
                0,
                dec(m).len() as int,
            )[k] == dec(m)[k] by {
                assert(s[k] == a[k]);
            }
        }
        assert(s[i1] == SP);
        assert(!is_digit(SP));
        lemma_parse_num(s, 0, m);
        assert(parse_i_at(s, 0) == Some((t.value, i1)));
    }
    // The uncertainty.
    assert(s.subrange(i1 + 1, i2) =~= b) by {
        assert forall|k: int| 0 <= k < b.len() implies s.subrange(i1 + 1, i2)[k] == b[k] by {
            assert(s[i1 + 1 + k] == b[k]);
        }
    }
    assert(s[i2] == SP);
    lemma_parse_num(s, i1 + 1, t.ube as nat);
    // The entry count.
    assert(s.subrange(i2 + 1, i3) =~= c) by {
        assert forall|k: int| 0 <= k < c.len() implies s.subrange(i2 + 1, i3)[k] == c[k] by {
            assert(s[i2 + 1 + k] == c[k]);
        }
    }
    assert(s[i3] == SP || i3 == s.len());
    assert(e.len() > 0 ==> s[i3] == e[0] + 0);
    // The byte after the count: the first entry's separator.
    assert(t.policy.len() > 0);
    assert(e == entry_bytes(t.policy[0]) + entries_bytes(t.policy.drop_first()));
    assert(e[0] == SP);
    assert(s[i3] == SP);
    assert(!is_digit(SP));
    lemma_parse_num(s, i2 + 1, t.policy.len() as nat);
    // The policy.
    assert(s.subrange(i3, j) =~= e) by {
        assert forall|k: int| 0 <= k < e.len() implies s.subrange(i3, j)[k] == e[k] by {
            assert(s[i3 + k] == e[k]);
        }
    }
    assert(s[j] == SP);
    lemma_parse_entries_printed(s, i3, t.policy);
    // The state, and the record as a whole.
    assert(s.subrange(j + 1, s.len() as int) =~= t.state) by {
        assert forall|k: int| 0 <= k < t.state.len() implies s.subrange(j + 1, s.len() as int)[k]
            == t.state[k] by {
            assert(s[j + 1 + k] == t.state[k]);
        }
    }
    let cand = TargetV { state: s.subrange(j + 1, s.len() as int), policy: t.policy, value: t.value, ube: t.ube };
    assert(cand == t);
    assert(parse_tail(s, t.policy, j, t.value, t.ube) == Some(t));
    assert(spec_parse(s) == Some(t));
}

/// Prints a well-formed record as one line, without the line separator.
pub fn target_to_line(t: &Target) -> (r: Vec<u8>)
    requires
        t.wf(),
    ensures
        r@ == spec_line(t@),
{
    let ghost tv = t@;
    let mut out: Vec<u8> = Vec::new();
    if t.value < 0 {
        out.push(MINUS);
        let mut d = u64_to_dec((-(t.value as i64)) as u64);
        out.append(&mut d);
        proof {
            assert(out@ =~= dec_i(tv.value));
        }
    } else {
        let mut d = u64_to_dec(t.value as u64);
        out.append(&mut d);
        proof {
            assert(out@ =~= dec_i(tv.value));
        }
    }
    out.push(SP);
    let mut d = u64_to_dec(t.ube as u64);
    out.append(&mut d);
    out.push(SP);
    let mut d2 = u64_to_dec(t.policy.len() as u64);
    out.append(&mut d2);
    let ghost head = dec_i(tv.value) + seq![SP] + dec(tv.ube as nat) + seq![SP] + dec(
        tv.policy.len() as nat,
    );
    proof {
        assert(out@ =~= head);
    }
    let mut i: usize = 0;
    while i < t.policy.len()
        invariant
            i <= tv.policy.len(),
            t@ == tv,
            out@ == head + entries_bytes(tv.policy.take(i as int)),
        decreases tv.policy.len() - i,
    {
        let ghost outpre = out@;
        out.push(SP);
        let mut da = u64_to_dec(t.policy[i].action);
        out.append(&mut da);
        out.push(SP);
        let mut dw = u64_to_dec(t.policy[i].weight as u64);
        out.append(&mut dw);
        proof {
            let e = tv.policy[i as int];
            assert(out@ =~= outpre + entry_bytes(e));
            assert(tv.policy.take(i + 1) =~= tv.policy.take(i as int) + seq![e]);
            lemma_entries_concat(tv.policy.take(i as int), seq![e]);
            assert(seq![e].drop_first() =~= Seq::<PolicyEntry>::empty());
            assert(seq![e][0] == e);
            assert(entries_bytes(Seq::<PolicyEntry>::empty()) =~= Seq::<u8>::empty());
            assert(entries_bytes(seq![e]) =~= entry_bytes(e));
            assert(out@ =~= head + entries_bytes(tv.policy.take(i + 1)));
        }
        i = i + 1;
    }
    out.push(SP);
    let mut st = clone_bytes(&t.state);
    out.append(&mut st);
    proof {
        assert(tv.policy.take(tv.policy.len() as int) =~= tv.policy);
        assert(out@ =~= spec_line(tv));
    }
    out
}

/// Copies the bytes of the line from `from` to its end.
fn copy_tail(line: &Vec<u8>, from: usize) -> (r: Vec<u8>)
    requires
        from <= line@.len(),
    ensures
        r@ == line@.subrange(from as int, line@.len() as int),
{
    let mut r: Vec<u8> = Vec::new();
    let mut i: usize = from;
    while i < line.len()
        invariant
            from <= i <= line@.len(),
            r@ == line@.subrange(from as int, i as int),
        decreases line@.len() - i,
    {
        r.push(line[i]);
        i = i + 1;
        proof {
            assert(r@ =~= line@.subrange(from as int, i as int));
        }
    }
    proof {
        assert(r@ =~= line@.subrange(from as int, line@.len() as int));
    }
    r
}

/// Does some entry carry a positive weight?
fn has_positive_weight(p: &Vec<PolicyEntry>) -> (r: bool)
    ensures
        r == exists|i: int| 0 <= i < p@.len() && p@[i].weight > 0,
{
    let mut i: usize = 0;
    while i < p.len()
        invariant
            i <= p@.len(),
            forall|k: int| 0 <= k < i ==> p@[k].weight == 0,
        decreases p@.len() - i,
    {
        if p[i].weight > 0 {
            return true;
        }
        i = i + 1;
    }
    false
}

/// Does no action appear twice?
fn actions_distinct(p: &Vec<PolicyEntry>) -> (r: bool)
    ensures
        r == forall|i: int, j: int| 0 <= i < j < p@.len() ==> p@[i].action != p@[j].action,
{
    let mut i: usize = 0;
    while i < p.len()
        invariant
            i <= p@.len(),
            forall|a: int, b: int| 0 <= a < b < p@.len() && a < i ==> p@[a].action != p@[b].action,
        decreases p@.len() - i,
    {
        let mut j: usize = i + 1;
        while j < p.len()
            invariant
                i < j <= p@.len(),
                forall|b: int| i < b < j ==> p@[i as int].action != p@[b].action,
            decreases p@.len() - j,
        {
            if p[i].action == p[j].action {
                return false;
            }
            j = j + 1;
        }
        i = i + 1;
    }
    true
}

/// Is the state descriptor free of line separators?
fn state_clean(st: &Vec<u8>) -> (r: bool)
    ensures
        r == forall|i: int| 0 <= i < st@.len() ==> st@[i] != NEWLINE,
{
    let mut i: usize = 0;
    while i < st.len()
        invariant
            i <= st@.len(),
            forall|k: int| 0 <= k < i ==> st@[k] != NEWLINE,
        decreases st@.len() - i,
    {
        if st[i] == NEWLINE {
            return false;
        }
        i = i + 1;
    }
    true
}

/// Parses one line into a record; a line that does not spell a well-formed
/// record yields nothing.
#[verifier::loop_isolation(false)]
pub fn parse_target(line: &Vec<u8>) -> (r: Option<Target>)
    ensures
        match r {
            Some(t) => spec_parse(line@) == Some(t@) && t.wf(),
            None => spec_parse(line@) is None,
        },
{
    let ghost gs = line@;
    let n = line.len();
    // The value, possibly signed.
    let negative = n > 0 && line[0] == MINUS;
    let scan_start: usize = if negative {
        1
    } else {
        0
    };
    let (mag, i1) = match scan_u64(line, scan_start) {
        Some(x) => x,
        None => {
            return None;
        }
    };
    if mag > VALUE_SCALE as u64 {
        return None;
    }
    let value: i32 = if negative {
        -((mag as i64) as i32)
    } else {
        mag as i32
    };
    proof {
        assert(parse_i_at(gs, 0) == Some((value as int, i1 as int)));
    }
    if !(i1 < n && line[i1] == SP) {
        return None;
    }
    // The uncertainty.
    let (ube, i2) = match scan_u64(line, i1 + 1) {
        Some(x) => x,
        None => {
            return None;
        }
    };
    if ube > UBE_SCALE as u64 {
        return None;
    }
    if !(i2 < n && line[i2] == SP) {
        return None;
    }
    // The number of policy entries.
    let (k, i3) = match scan_u64(line, i2 + 1) {
        Some(x) => x,
        None => {
            return None;
        }
    };
    // The entries.
    let mut entries: Vec<PolicyEntry> = Vec::new();
    let mut pos: usize = i3;
    let mut c: u64 = 0;
    while c < k
        invariant
            c <= k,
            pos <= n,
            n == gs.len(),
            gs == line@,
            match parse_entries(gs, pos as int, (k - c) as nat) {
                Some((rest, j)) => parse_entries(gs, i3 as int, k as nat) == Some(
                    (entries@ + rest, j),
                ),
                None => parse_entries(gs, i3 as int, k as nat) is None,
            },
        decreases k - c,
    {
        let ghost rem = (k - c) as nat;
        if !(pos < n && line[pos] == SP) {
            proof {
                assert(parse_entries(gs, pos as int, rem) is None);
            }
            return None;
        }
        let (a, j) = match scan_u64(line, pos + 1) {
            Some(x) => x,
            None => {
                proof {
                    assert(parse_entries(gs, pos as int, rem) is None);
                }
                return None;
            }
        };
        if !(j < n && line[j] == SP) {
            proof {
                assert(parse_entries(gs, pos as int, rem) is None);
            }
            return None;
        }
        let (w, j2) = match scan_u64(line, j + 1) {
            Some(x) => x,
            None => {
                proof {
                    assert(parse_entries(gs, pos as int, rem) is None);
                }
                return None;
            }
        };
        if w > u32::MAX as u64 {
            proof {
                assert(parse_entries(gs, pos as int, rem) is None);
            }
            return None;
        }
        let entry = PolicyEntry { action: a, weight: w as u32 };
        let ghost entriespre = entries@;
        entries.push(entry);
        proof {
            let inner = parse_entries(gs, j2 as int, (rem - 1) as nat);
            assert(parse_entries(gs, pos as int, rem) == match inner {
                Some((rest2, jj)) => Some((seq![entry] + rest2, jj)),
                None => None::<(Seq<PolicyEntry>, int)>,
            });
            match inner {
                Some((rest2, jj)) => {
                    assert(entriespre + (seq![entry] + rest2) =~= entries@ + rest2);
                }
                None => {}
            }
        }
        pos = j2;
        c = c + 1;
    }
    proof {
        assert(parse_entries(gs, pos as int, 0) == Some((Seq::<PolicyEntry>::empty(), pos as int)));
        assert(entries@ + Seq::<PolicyEntry>::empty() =~= entries@);
        assert(parse_entries(gs, i3 as int, k as nat) == Some((entries@, pos as int)));
    }
    // The state descriptor.
    if !(pos < n && line[pos] == SP) {
        return None;
    }
    let state = copy_tail(line, pos + 1);
    // Well-formedness of the whole record.
    let ok = entries.len() >= 1 && has_positive_weight(&entries) && actions_distinct(&entries)
        && state_clean(&state);
    let ghost cand = TargetV {
        state: gs.subrange(pos + 1, gs.len() as int),
        policy: entries@,
        value: value as int,
        ube: ube as int,
    };
    if !ok {
        proof {
            assert(cand.policy == entries@);
            assert(cand.state == state@);
            if entries.len() < 1 {
                assert(!policy_wf(cand.policy));
            } else if !(exists|i: int| 0 <= i < entries@.len() && entries@[i].weight > 0) {
                assert(!policy_wf(cand.policy));
            } else if !(forall|i: int, j: int|
                0 <= i < j < entries@.len() ==> entries@[i].action != entries@[j].action) {
                assert(!policy_wf(cand.policy));
            } else {
                assert(exists|i: int| 0 <= i < state@.len() && state@[i] == NEWLINE);
            }
            assert(!target_wf(cand));
            assert(parse_tail(gs, entries@, pos as int, value as int, ube as int) is None);
        }
        return None;
    }
    let t = Target { state, policy: entries, value, ube: ube as u32 };
    proof {
        assert(target_wf(cand));
        assert(t@ == cand);
        assert(spec_parse(gs) == Some(cand));
    }
    Some(t)
}

} // verus!
