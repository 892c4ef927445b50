//! Who owns each diagnostics file: the identity a file name carries, how it
//! is spelled, how it is read back, and the order listings use.
//!
//! `start` is UTC epoch nanoseconds rather than a readable date because the
//! name has to be a collision-proof identity: pid reuse inside one second, a
//! clock stepped backwards, and the repeated hour at a DST fall-back all
//! reproduce a second-resolution local name.

use vstd::prelude::*;

use crate::text::{
    chars_of, dec_digits, is_digit, lemma_dec_digits_shape, lemma_parse_dec,
    parse_unsigned, parse_unsigned_in, push_decimal, string_of,
};

verus! {

/// Which process wrote a file, and which attempt it was.
#[derive(Debug, Clone, Copy, PartialEq, Eq, Structural)]
pub struct ProcessId {
    pub start: u128,
    pub pid: u32,
    pub ordinal: u32,
}

/// The `.log` every diagnostics file name ends in.
pub open spec fn log_suffix() -> Seq<char> {
    seq!['.', 'l', 'o', 'g']
}

/// The prefix of a crash artifact's name.
pub open spec fn crash_prefix() -> Seq<char> {
    seq!['c', 'r', 'a', 's', 'h', '-']
}

/// The prefix of a continuous session log's name.
pub open spec fn session_prefix() -> Seq<char> {
    seq!['a', 'l', 'a', 'c', 'r', 'i', 't', 'r', 'e', 'e', '-']
}

/// `<prefix><start>-<pid>.log`, or `<prefix><start>-<pid>-<ordinal>.log`
/// once a retry has moved the ordinal off zero.
pub open spec fn spec_name(prefix: Seq<char>, id: ProcessId) -> Seq<char> {
    prefix + dec_digits(id.start as nat) + seq!['-'] + dec_digits(id.pid as nat) + (if id.ordinal
        == 0 {
        Seq::<char>::empty()
    } else {
        seq!['-'] + dec_digits(id.ordinal as nat)
    }) + log_suffix()
}

/// `str::split('-')`: the fields between dashes, always at least one.
pub open spec fn split_dash(s: Seq<char>) -> Seq<Seq<char>>
    decreases s.len(),
{
    if s.len() == 0 {
        seq![Seq::<char>::empty()]
    } else {
        let fields = split_dash(s.drop_last());
        if s.last() == '-' {
            fields.push(Seq::<char>::empty())
        } else {
            fields.update(fields.len() - 1, fields.last().push(s.last()))
        }
    }
}

/// What a file name says about its writer, if it is one of ours: the prefix,
/// then two or three dash-separated unsigned numbers, then `.log`.
pub open spec fn spec_parse_name(prefix: Seq<char>, name: Seq<char>) -> Option<ProcessId> {
    if name.len() >= prefix.len() + 4 && name.take(prefix.len() as int) == prefix && name.skip(
        name.len() - 4,
    ) == log_suffix() {
        let fields = split_dash(name.subrange(prefix.len() as int, name.len() - 4));
        let start = parse_unsigned(fields[0], u128::MAX as nat);
        let pid = if fields.len() >= 2 {
            parse_unsigned(fields[1], u32::MAX as nat)
        } else {
            None
        };
        let ordinal = if fields.len() == 3 {
            parse_unsigned(fields[2], u32::MAX as nat)
        } else {
            Some(0nat)
        };
        if (fields.len() == 2 || fields.len() == 3) && start is Some && pid is Some && ordinal is Some {
            Some(
                ProcessId {
                    start: start->0 as u128,
                    pid: pid->0 as u32,
                    ordinal: ordinal->0 as u32,
                },
            )
        } else {
            None
        }
    } else {
        None
    }
}

/// Record the ordinal the first successful exclusive create settled on, so
/// the second file reuses it instead of racing for its own.
pub fn set_ordinal(identity: &mut ProcessId, ordinal: u32)
    ensures
        *final(identity) == (ProcessId { ordinal, ..*old(identity) }),
{
    identity.ordinal = ordinal;
}

/// Put the ordinal back to zero, as a fresh process starts.
pub fn reset_identity_for_tests(identity: &mut ProcessId)
    ensures
        *final(identity) == (ProcessId { ordinal: 0, ..*old(identity) }),
{
    identity.ordinal = 0;
}

/// The crash artifact's name for `id`.
pub fn artifact_name(id: &ProcessId) -> (name: String)
    ensures
        name@ == spec_name(crash_prefix(), *id),
{
    proof {
        reveal_strlit("crash-");
    }
    assert("crash-"@ =~= crash_prefix());
    name_with_prefix("crash-", id)
}

/// The continuous session log's name for `id`.
pub fn session_log_name(id: &ProcessId) -> (name: String)
    ensures
        name@ == spec_name(session_prefix(), *id),
{
    proof {
        reveal_strlit("alacritree-");
    }
    assert("alacritree-"@ =~= session_prefix());
    name_with_prefix("alacritree-", id)
}

fn name_with_prefix(prefix: &str, id: &ProcessId) -> (name: String)
    ensures
        name@ == spec_name(prefix@, *id),
{
    let mut out = chars_of(prefix);
    push_decimal(&mut out, id.start);
    out.push('-');
    push_decimal(&mut out, id.pid as u128);
    if id.ordinal != 0 {
        out.push('-');
        push_decimal(&mut out, id.ordinal as u128);
    }
    out.push('.');
    out.push('l');
    out.push('o');
    out.push('g');
    assert(out@ =~= spec_name(prefix@, *id));
    string_of(&out)
}

proof fn lemma_split_len(s: Seq<char>)
    ensures
        split_dash(s).len() >= 1,
    decreases s.len(),
{
    if s.len() > 0 {
        lemma_split_len(s.drop_last());
    }
}

/// The field ranges `str::split('-')` yields over `v[lo..hi]`.
fn dash_fields(v: &Vec<char>, lo: usize, hi: usize) -> (fields: Vec<(usize, usize)>)
    requires
        lo <= hi <= v.len(),
    ensures
        fields.len() == split_dash(v@.subrange(lo as int, hi as int)).len(),
        forall|k: int|
            0 <= k < fields.len() ==> {
                &&& lo <= (#[trigger] fields[k]).0 <= fields[k].1 <= hi
                &&& v@.subrange(fields[k].0 as int, fields[k].1 as int) == split_dash(
                    v@.subrange(lo as int, hi as int),
                )[k]
            },
{
    let mut fields: Vec<(usize, usize)> = Vec::new();
    fields.push((lo, lo));
    let mut i = lo;
    assert(v@.subrange(lo as int, lo as int) =~= Seq::<char>::empty());
    while i < hi
        invariant
            lo <= i <= hi <= v.len(),
            fields.len() == split_dash(v@.subrange(lo as int, i as int)).len(),
            fields.len() >= 1,
            fields[fields.len() - 1].1 == i,
            forall|k: int|
                0 <= k < fields.len() ==> {
                    &&& lo <= (#[trigger] fields[k]).0 <= fields[k].1 <= i
                    &&& v@.subrange(fields[k].0 as int, fields[k].1 as int) == split_dash(
                        v@.subrange(lo as int, i as int),
                    )[k]
                },
        decreases hi - i,
    {
        let ghost prev = split_dash(v@.subrange(lo as int, i as int));
        let ghost next_s = v@.subrange(lo as int, i + 1);
        assert(next_s.drop_last() =~= v@.subrange(lo as int, i as int));
        assert(next_s.last() == v@[i as int]);
        if v[i] == '-' {
            fields.push((i + 1, i + 1));
            assert(v@.subrange(i + 1, i + 1) =~= Seq::<char>::empty());
        } else {
            let last = fields.len() - 1;
            let (a, _) = fields[last];
            fields.set(last, (a, i + 1));
            assert(v@.subrange(a as int, i + 1) =~= v@.subrange(a as int, i as int).push(v@[i as int]));
        }
        i += 1;
    }
    fields
}

/// The identity a file name carries, if it is one of ours.
pub fn parse_name(prefix: &str, file_name: &str) -> (id: Option<ProcessId>)
    ensures
        id == spec_parse_name(prefix@, file_name@),
{
    let p = chars_of(prefix);
    let n = chars_of(file_name);
    if n.len() < 4 || n.len() - 4 < p.len() {
        return None;
    }
    let mut i: usize = 0;
    while i < p.len()
        invariant
            i <= p.len() <= n.len(),
            p.len() + 4 <= n.len(),
            n@ == file_name@,
            p@ == prefix@,
            forall|k: int| 0 <= k < i ==> p@[k] == n@[k],
        decreases p.len() - i,
    {
        if p[i] != n[i] {
            assert(n@.take(p.len() as int)[i as int] != p@[i as int]);
            assert(n@.take(p.len() as int) != p@);
            return None;
        }
        i += 1;
    }
    assert(n@.take(p.len() as int) =~= p@);
    let hi = n.len() - 4;
    if !(n[hi] == '.' && n[hi + 1] == 'l' && n[hi + 2] == 'o' && n[hi + 3] == 'g') {
        assert(n@.skip(hi as int) != log_suffix()) by {
            if n@.skip(hi as int) == log_suffix() {
                assert(n@.skip(hi as int)[0] == n@[hi as int]);
                assert(n@.skip(hi as int)[1] == n@[hi + 1]);
                assert(n@.skip(hi as int)[2] == n@[hi + 2]);
                assert(n@.skip(hi as int)[3] == n@[hi + 3]);
            }
        }
        return None;
    }
    assert(n@.skip(hi as int) =~= log_suffix());
    let fields = dash_fields(&n, p.len(), hi);
    proof {
        lemma_split_len(n@.subrange(p.len() as int, hi as int));
    }
    if fields.len() != 2 && fields.len() != 3 {
        return None;
    }
    let start = match parse_unsigned_in(&n, fields[0].0, fields[0].1, u128::MAX) {
        Some(v) => v,
        None => return None,
    };
    let pid = match parse_unsigned_in(&n, fields[1].0, fields[1].1, u32::MAX as u128) {
        Some(v) => v as u32,
        None => return None,
    };
    let ordinal = if fields.len() == 3 {
        match parse_unsigned_in(&n, fields[2].0, fields[2].1, u32::MAX as u128) {
            Some(v) => v as u32,
            None => return None,
        }
    } else {
        0
    };
    Some(ProcessId { start, pid, ordinal })
}

/// Newest first, then by retry ordinal: `start` alone leaves two artifacts
/// from one exclusive-create retry unordered, and "newest" undefined with
/// them.  Sorting ascending by this key gives that order.
pub fn sort_key(id: &ProcessId) -> (key: (u128, u32))
    ensures
        key.0 == u128::MAX - id.start,
        key.1 == id.ordinal,
{
    (u128::MAX - id.start, id.ordinal)
}

/// Whether `/proc/<pid>` names an entry (`Path::exists`): Linux's process
/// table, at the moment of the call.  Other systems have no `/proc`, and
/// ask their own process table instead of this.
#[verifier::external_body]
fn proc_entry_exists(pid: u32) -> bool {
    std::path::Path::new(&format!("/proc/{pid}")).exists()
}

/// Whether a pid belongs to a running process, as Linux's process table
/// says.  Pid 0 never does.
///
/// Pid reuse can make a dead pid look live, which only ever defers a
/// deletion, the safe direction.  It cannot produce a wrong identity,
/// because the file name carries the start value too.
pub fn pid_is_live(pid: u32) -> (live: bool)
    ensures
        pid == 0 ==> !live,
{
    if pid == 0 {
        return false;
    }
    let listed = proc_entry_exists(pid);
    live_by_process_table(pid, listed)
}

/// Whether `pid` is live, given whether the process table lists it: pid 0
/// never is, whatever the table says.
pub fn live_by_process_table(pid: u32, listed: bool) -> (live: bool)
    ensures
        live == (pid != 0 && listed),
{
    pid != 0 && listed
}

/// Whether `s` holds no dash.
pub open spec fn dash_free(s: Seq<char>) -> bool {
    forall|i: int| 0 <= i < s.len() ==> #[trigger] s[i] != '-'
}

proof fn lemma_split_plain_append(s: Seq<char>, t: Seq<char>)
    requires
        dash_free(t),
    ensures
        split_dash(s + t) == split_dash(s).update(
            split_dash(s).len() - 1,
            split_dash(s).last() + t,
        ),
    decreases t.len(),
{
    lemma_split_len(s);
    if t.len() == 0 {
        assert(s + t =~= s);
        assert(split_dash(s).last() + t =~= split_dash(s).last());
        assert(split_dash(s).update(split_dash(s).len() - 1, split_dash(s).last())
            =~= split_dash(s));
    } else {
        let t0 = t.drop_last();
        assert(dash_free(t0)) by {
            assert forall|i: int| 0 <= i < t0.len() implies #[trigger] t0[i] != '-' by {
                assert(t0[i] == t[i]);
            }
        }
        lemma_split_plain_append(s, t0);
        assert((s + t).drop_last() =~= s + t0);
        assert((s + t).last() == t.last());
        assert(t.last() != '-');
        let f = split_dash(s);
        let g = split_dash(s + t0);
        assert(g.last() == f.last() + t0);
        assert(g.last().push(t.last()) =~= f.last() + t);
        assert(split_dash(s + t) =~= f.update(f.len() - 1, f.last() + t));
    }
}

proof fn lemma_digits_dash_free(n: nat)
    ensures
        dash_free(dec_digits(n)),
{
    lemma_dec_digits_shape(n);
    let d = dec_digits(n);
    assert forall|i: int| 0 <= i < d.len() implies #[trigger] d[i] != '-' by {
        assert(is_digit(d[i]));
    }
}

/// A name spelled for an identity parses back to that identity, under any
/// prefix: the ordinal survives the round trip, so two artifacts from one
/// retry stay distinguishable.
pub proof fn names_round_trip(prefix: Seq<char>, id: ProcessId)
    ensures
        spec_parse_name(prefix, spec_name(prefix, id)) == Some(id),
{
    let a = dec_digits(id.start as nat);
    let b = dec_digits(id.pid as nat);
    let c = dec_digits(id.ordinal as nat);
    lemma_digits_dash_free(id.start as nat);
    lemma_digits_dash_free(id.pid as nat);
    lemma_digits_dash_free(id.ordinal as nat);
    lemma_parse_dec(id.start as nat, u128::MAX as nat);
    lemma_parse_dec(id.pid as nat, u32::MAX as nat);
    lemma_parse_dec(id.ordinal as nat, u32::MAX as nat);
    let tail = if id.ordinal == 0 {
        Seq::<char>::empty()
    } else {
        seq!['-'] + c
    };
    let rest = a + seq!['-'] + b + tail;
    let name = spec_name(prefix, id);
    assert(name =~= prefix + rest + log_suffix());
    assert(name.take(prefix.len() as int) =~= prefix);
    assert(name.skip(name.len() - 4) =~= log_suffix());
    assert(name.subrange(prefix.len() as int, name.len() - 4) =~= rest);
    let e = Seq::<char>::empty();
    assert(split_dash(e) == seq![e]);
    lemma_split_plain_append(e, a);
    assert(e + a =~= a);
    assert(split_dash(a) =~= seq![a]);
    assert(a.push('-') =~= a + seq!['-']);
    assert(a.push('-').drop_last() =~= a);
    assert(split_dash(a.push('-')) == split_dash(a).push(e));
    assert(split_dash(a.push('-')) =~= seq![a, e]);
    lemma_split_plain_append(a + seq!['-'], b);
    assert(e + b =~= b);
    assert(split_dash(a + seq!['-'] + b) =~= seq![a, b]);
    if id.ordinal == 0 {
        assert(rest =~= a + seq!['-'] + b);
    } else {
        let ab = a + seq!['-'] + b;
        assert(ab.push('-') =~= ab + seq!['-']);
        assert(ab.push('-').drop_last() =~= ab);
        assert(split_dash(ab.push('-')) == split_dash(ab).push(e));
        assert(split_dash(ab.push('-')) =~= seq![a, b, e]);
        lemma_split_plain_append(ab + seq!['-'], c);
        assert(e + c =~= c);
        assert(rest =~= ab + seq!['-'] + c);
        assert(split_dash(rest) =~= seq![a, b, c]);
    }
}

/// The order std gives a `(u128, u32)` key: the first field, then the second.
pub open spec fn key_before(a: (u128, u32), b: (u128, u32)) -> bool {
    a.0 < b.0 || (a.0 == b.0 && a.1 < b.1)
}

/// Sorting ascending by `sort_key` puts the newest start first and breaks a
/// tie on start by the ordinal.
pub proof fn sort_key_orders_newest_first(x: ProcessId, y: ProcessId)
    ensures
        key_before(
            ((u128::MAX - x.start) as u128, x.ordinal),
            ((u128::MAX - y.start) as u128, y.ordinal),
        ) == (x.start > y.start || (x.start == y.start && x.ordinal < y.ordinal)),
{
}

} // verus!
