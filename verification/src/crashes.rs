//! The crash listing: crashed and indeterminate sessions, newest first.
//!
//! Every GUI launch leaves an artifact, not only a crashing one, so by
//! default the listing shows only artifacts judged crashed or
//! indeterminate; asking for all of them also shows clean exits and
//! sessions still running.  The listing is strictly read-only: it derives
//! one view from the per-process files without touching them.

use vstd::prelude::*;
use crate::logdir::{key_before, ProcessId};
use crate::osc::{lossy_string, utf8_lossy};
use vstd::utf8::encode_utf8;

verus! {

broadcast use vstd::string::group_string_axioms;

/// How a session ended, as read from its artifact.
#[derive(Debug, Clone, Copy, PartialEq, Eq, Structural)]
pub enum Verdict {
    /// It recorded a clean exit.
    Clean,
    /// No exit was recorded and its process is still alive.
    Running,
    /// It recorded a panic, or died without recording an exit.
    Crashed,
    /// The artifact cannot be read with any confidence (no header).
    Indeterminate,
}

/// One crash artifact.
#[derive(Debug)]
pub struct Artifact {
    pub name: String,
    pub id: ProcessId,
    pub bytes: Vec<u8>,
    pub verdict: Verdict,
}

/// Whether `a` sorts before `b`, comparing characters from the front, a
/// proper prefix first.  For strings this is also the order of their UTF-8
/// bytes, which is how `String` compares.
pub open spec fn name_lt(a: Seq<char>, b: Seq<char>) -> bool
    decreases a.len(),
{
    if a.len() == 0 {
        b.len() > 0
    } else if b.len() == 0 {
        false
    } else if a[0] != b[0] {
        a[0] < b[0]
    } else {
        name_lt(a.skip(1), b.skip(1))
    }
}

/// The listing key of an artifact: newest start first, then the retry
/// ordinal.
pub open spec fn listing_key(a: Artifact) -> (u128, u32) {
    ((u128::MAX - a.id.start) as u128, a.id.ordinal)
}

/// Whether `a` is listed before `b`: by key, then by name.
pub open spec fn listed_before(a: Artifact, b: Artifact) -> bool {
    key_before(listing_key(a), listing_key(b)) || (listing_key(a) == listing_key(b) && name_lt(
        a.name@,
        b.name@,
    ))
}

/// Whether `s` is in listing order: nothing is listed before anything
/// ahead of it.
pub open spec fn in_listing_order(s: Seq<Artifact>) -> bool {
    forall|i: int, j: int| 0 <= i < j < s.len() ==> !listed_before(#[trigger] s[j], #[trigger] s[i])
}

proof fn lemma_name_lt_irreflexive(a: Seq<char>)
    ensures
        !name_lt(a, a),
    decreases a.len(),
{
    if a.len() > 0 {
        lemma_name_lt_irreflexive(a.skip(1));
    }
}

proof fn lemma_name_lt_transitive(a: Seq<char>, b: Seq<char>, c: Seq<char>)
    requires
        name_lt(a, b),
        name_lt(b, c),
    ensures
        name_lt(a, c),
    decreases a.len(),
{
    if a.len() > 0 && b.len() > 0 && c.len() > 0 && a[0] == b[0] && b[0] == c[0] {
        lemma_name_lt_transitive(a.skip(1), b.skip(1), c.skip(1));
    }
}

proof fn lemma_listed_before_transitive(a: Artifact, b: Artifact, c: Artifact)
    requires
        listed_before(a, b),
        listed_before(b, c),
    ensures
        listed_before(a, c),
{
    if listing_key(a) == listing_key(b) && listing_key(b) == listing_key(c) {
        lemma_name_lt_transitive(a.name@, b.name@, c.name@);
    }
}

proof fn lemma_listed_before_irreflexive(a: Artifact)
    ensures
        !listed_before(a, a),
{
    lemma_name_lt_irreflexive(a.name@);
}

fn name_less(a: &String, b: &String) -> (lt: bool)
    ensures
        lt == name_lt(a@, b@),
{
    let av = crate::text::chars_of(a.as_str());
    let bv = crate::text::chars_of(b.as_str());
    let mut i: usize = 0;
    assert(a@.skip(0) =~= a@);
    assert(b@.skip(0) =~= b@);
    while i < av.len() && i < bv.len() && av[i] == bv[i]
        invariant
            i <= av.len(),
            i <= bv.len(),
            av@ == a@,
            bv@ == b@,
            name_lt(a@, b@) == name_lt(a@.skip(i as int), b@.skip(i as int)),
        decreases av.len() - i,
    {
        assert(a@.skip(i as int).skip(1) =~= a@.skip(i + 1));
        assert(b@.skip(i as int).skip(1) =~= b@.skip(i + 1));
        i += 1;
    }
    if i == av.len() {
        i < bv.len()
    } else if i == bv.len() {
        false
    } else {
        av[i] < bv[i]
    }
}

fn before(a: &Artifact, b: &Artifact) -> (lt: bool)
    ensures
        lt == listed_before(*a, *b),
{
    let ka = crate::logdir::sort_key(&a.id);
    let kb = crate::logdir::sort_key(&b.id);
    if ka.0 < kb.0 || (ka.0 == kb.0 && ka.1 < kb.1) {
        true
    } else if ka.0 == kb.0 && ka.1 == kb.1 {
        name_less(&a.name, &b.name)
    } else {
        false
    }
}

/// The artifacts in listing order: newest first, then by retry ordinal,
/// then by name.  Equal artifacts keep their order.
pub fn order_artifacts(artifacts: Vec<Artifact>) -> (ordered: Vec<Artifact>)
    ensures
        ordered@.to_multiset() == artifacts@.to_multiset(),
        in_listing_order(ordered@),
{
    broadcast use vstd::seq_lib::group_to_multiset_ensures, vstd::multiset::group_multiset_axioms;

    let ghost all = artifacts@;
    let mut rest = artifacts;
    let mut out: Vec<Artifact> = Vec::new();
    assert(out@.to_multiset() =~= vstd::multiset::Multiset::<Artifact>::empty());
    assert(out@.to_multiset().add(rest@.to_multiset()) =~= all.to_multiset());
    while rest.len() > 0
        invariant
            out@.to_multiset().add(rest@.to_multiset()) == all.to_multiset(),
            in_listing_order(out@),
        decreases rest.len(),
    {
        let ghost rest_before = rest@;
        let item = rest.remove(0);
        assert(item == rest_before[0]);
        assert(rest@ == rest_before.remove(0));
        proof {
            vstd::seq_lib::to_multiset_remove(rest_before, 0int);
        }
        assert(rest@.to_multiset() == rest_before.to_multiset().remove(item));
        assert(rest_before.to_multiset().contains(item)) by {
            vstd::seq_lib::to_multiset_contains(rest_before, item);
        }
        let mut pos: usize = 0;
        while pos < out.len() && !before(&item, &out[pos])
            invariant
                pos <= out.len(),
                forall|k: int| 0 <= k < pos ==> !listed_before(item, #[trigger] out@[k]),
            decreases out.len() - pos,
        {
            pos += 1;
        }
        let ghost old_out = out@;
        out.insert(pos, item);
        proof {
            let s = out@;
            assert forall|i: int, j: int| 0 <= i < j < s.len() implies !listed_before(
                #[trigger] s[j],
                #[trigger] s[i],
            ) by {
                if j < pos {
                    assert(s[i] == old_out[i] && s[j] == old_out[j]);
                } else if j == pos {
                    assert(s[i] == old_out[i]);
                } else if i == pos {
                    assert(s[j] == old_out[j - 1]);
                    assert(pos < old_out.len());
                    assert(listed_before(item, old_out[pos as int]));
                    if listed_before(old_out[j - 1], item) {
                        lemma_listed_before_transitive(old_out[j - 1], item, old_out[pos as int]);
                        if j - 1 == pos {
                            lemma_listed_before_irreflexive(old_out[pos as int]);
                        }
                    }
                } else if i < pos {
                    assert(s[i] == old_out[i] && s[j] == old_out[j - 1]);
                } else {
                    assert(s[i] == old_out[i - 1] && s[j] == old_out[j - 1]);
                }
            }
            vstd::seq_lib::to_multiset_insert(old_out, pos as int, item);
            assert(out@.to_multiset() == old_out.to_multiset().insert(item));
            assert(out@.to_multiset().add(rest@.to_multiset()) =~= old_out.to_multiset().add(
                rest_before.to_multiset(),
            ));
        }
    }
    proof {
        assert(rest@ =~= Seq::<Artifact>::empty());
        assert(rest@.to_multiset() =~= vstd::multiset::Multiset::<Artifact>::empty());
        assert(out@.to_multiset().add(rest@.to_multiset()) =~= out@.to_multiset());
    }
    out
}

/// Whether the default listing shows a session: only a crash, or what
/// might be one.  A running session has not crashed yet.
pub open spec fn shown_by_default(verdict: Verdict) -> bool {
    verdict == Verdict::Crashed || verdict == Verdict::Indeterminate
}

/// The artifacts a listing shows, in the order given.
pub open spec fn spec_select(s: Seq<Artifact>, all: bool) -> Seq<Artifact>
    decreases s.len(),
{
    if s.len() == 0 {
        Seq::empty()
    } else {
        let rest = spec_select(s.drop_last(), all);
        if all || shown_by_default(s.last().verdict) {
            rest.push(s.last())
        } else {
            rest
        }
    }
}

/// Keep everything when `all` is asked for; otherwise only crashed and
/// indeterminate sessions.
pub fn select(artifacts: Vec<Artifact>, all: bool) -> (shown: Vec<Artifact>)
    ensures
        shown@ == spec_select(artifacts@, all),
{
    let ghost whole = artifacts@;
    let mut rest = artifacts;
    let mut out: Vec<Artifact> = Vec::new();
    let mut taken: usize = 0;
    assert(whole.skip(0) =~= whole);
    assert(whole.take(0) =~= Seq::<Artifact>::empty());
    assert(rest.len() == whole.len());
    while rest.len() > 0
        invariant
            taken <= whole.len() <= usize::MAX,
            rest.len() == whole.len() - taken,
            rest@ == whole.skip(taken as int),
            out@ == spec_select(whole.take(taken as int), all),
        decreases rest.len(),
    {
        let item = rest.remove(0);
        assert(whole.take(taken + 1).drop_last() =~= whole.take(taken as int));
        assert(whole.take(taken + 1).last() == item);
        assert(rest@ =~= whole.skip(taken + 1));
        if all || item.verdict == Verdict::Crashed || item.verdict == Verdict::Indeterminate {
            out.push(item);
        }
        taken += 1;
    }
    assert(whole.take(taken as int) =~= whole);
    out
}

/// Asking for everything shows every artifact, in the order given.
pub proof fn all_shows_everything(s: Seq<Artifact>)
    ensures
        spec_select(s, true) == s,
    decreases s.len(),
{
    if s.len() > 0 {
        all_shows_everything(s.drop_last());
        assert(s.drop_last().push(s.last()) =~= s);
    }
}

/// The default listing shows exactly the crashed and indeterminate
/// sessions: a clean exit or a live session never buries a crash.
pub proof fn the_default_shows_only_crashes(s: Seq<Artifact>, a: Artifact)
    ensures
        spec_select(s, false).contains(a) <==> (s.contains(a) && shown_by_default(a.verdict)),
    decreases s.len(),
{
    if s.len() > 0 {
        let rest = s.drop_last();
        the_default_shows_only_crashes(rest, a);
        assert(s =~= rest.push(s.last()));
        if s.contains(a) && a != s.last() {
            let i = choose|i: int| 0 <= i < s.len() && s[i] == a;
            assert(rest[i] == a);
        }
        if rest.contains(a) {
            let i = choose|i: int| 0 <= i < rest.len() && rest[i] == a;
            assert(s[i] == a);
        }
        if shown_by_default(s.last().verdict) {
            let shown = spec_select(rest, false);
            assert(spec_select(s, false) == shown.push(s.last()));
            if shown.contains(a) {
                let i = choose|i: int| 0 <= i < shown.len() && shown[i] == a;
                assert(shown.push(s.last())[i] == a);
            }
            if shown.push(s.last()).contains(a) && a != s.last() {
                let i = choose|i: int| 0 <= i < shown.len() + 1 && shown.push(s.last())[i] == a;
                assert(shown[i] == a);
            }
            assert(shown.push(s.last())[shown.len() as int] == s.last());
        }
        assert(s[s.len() - 1] == s.last());
    }
}

/// The bytes of `==> name <==`, a line end, the artifact's bytes as they
/// are, and a line end, for each artifact.  A damaged artifact is copied
/// byte for byte: refusing to show a damaged crash record is the one
/// unacceptable outcome.
pub open spec fn spec_human(s: Seq<Artifact>) -> Seq<u8>
    decreases s.len(),
{
    if s.len() == 0 {
        Seq::empty()
    } else {
        let a = s.last();
        spec_human(s.drop_last()) + seq![0x3du8, 0x3d, 0x3e, 0x20] + encode_utf8(a.name@) + seq![
            0x20u8,
            0x3c,
            0x3d,
            0x3d,
            0x0a,
        ] + a.bytes@ + seq![0x0au8]
    }
}

/// One artifact's block in the human listing: the line `==> name <==`,
/// then the artifact's bytes as they are, then a line end.
pub open spec fn artifact_block(a: Artifact) -> Seq<u8> {
    "==> "@.map_values(|c: char| c as u8) + encode_utf8(a.name@) + " <==\n"@.map_values(
        |c: char| c as u8,
    ) + a.bytes@ + seq![0x0au8]
}

/// A listing of one artifact is that artifact's block.
pub proof fn a_lone_artifact_is_its_block(a: Artifact)
    ensures
        spec_human(seq![a]) == artifact_block(a),
{
    reveal_strlit("==> ");
    reveal_strlit(" <==\n");
    assert(seq![a].drop_last() =~= Seq::<Artifact>::empty());
    assert("==> "@.map_values(|c: char| c as u8) =~= seq![0x3du8, 0x3d, 0x3e, 0x20]);
    assert(" <==\n"@.map_values(|c: char| c as u8) =~= seq![0x20u8, 0x3c, 0x3d, 0x3d, 0x0a]);
    let chunk = seq![0x3du8, 0x3d, 0x3e, 0x20] + encode_utf8(a.name@) + seq![
        0x20u8,
        0x3c,
        0x3d,
        0x3d,
        0x0a,
    ] + a.bytes@ + seq![0x0au8];
    assert(seq![a].last() == a);
    assert(spec_human(Seq::<Artifact>::empty()) == Seq::<u8>::empty());
    assert(spec_human(seq![a]) == spec_human(seq![a].drop_last()) + chunk);
    assert(spec_human(seq![a]) =~= chunk);
    assert(artifact_block(a) =~= chunk);
}

/// Listing `s` and then `t` is the listing of `s` followed by that of `t`:
/// artifacts come out in the order given, each block whole.
pub proof fn listings_concatenate(s: Seq<Artifact>, t: Seq<Artifact>)
    ensures
        spec_human(s + t) == spec_human(s) + spec_human(t),
    decreases t.len(),
{
    if t.len() == 0 {
        assert(s + t =~= s);
        assert(spec_human(s) + spec_human(t) =~= spec_human(s));
    } else {
        listings_concatenate(s, t.drop_last());
        assert((s + t).drop_last() =~= s + t.drop_last());
        assert((s + t).last() == t.last());
        let a = t.last();
        let chunk = seq![0x3du8, 0x3d, 0x3e, 0x20] + encode_utf8(a.name@) + seq![
            0x20u8,
            0x3c,
            0x3d,
            0x3d,
            0x0a,
        ] + a.bytes@ + seq![0x0au8];
        assert(spec_human(s + t) =~= spec_human(s + t.drop_last()) + chunk);
        assert(spec_human(t) =~= spec_human(t.drop_last()) + chunk);
        assert(spec_human(s + t) =~= spec_human(s) + spec_human(t));
    }
}

/// The listing begins with the block of the first artifact given.
pub proof fn the_listing_starts_with_the_first_artifact(s: Seq<Artifact>)
    requires
        s.len() > 0,
    ensures
        spec_human(s).take(artifact_block(s[0]).len() as int) == artifact_block(s[0]),
{
    assert(s =~= seq![s[0]] + s.skip(1));
    listings_concatenate(seq![s[0]], s.skip(1));
    a_lone_artifact_is_its_block(s[0]);
    assert(spec_human(s).take(artifact_block(s[0]).len() as int) =~= artifact_block(s[0]));
}

fn push_bytes(out: &mut Vec<u8>, more: &[u8])
    ensures
        final(out)@ == old(out)@ + more@,
{
    let mut i: usize = 0;
    while i < more.len()
        invariant
            i <= more.len(),
            out@ == old(out)@ + more@.take(i as int),
        decreases more.len() - i,
    {
        out.push(more[i]);
        assert(more@.take(i + 1) =~= more@.take(i as int).push(more@[i as int]));
        i += 1;
    }
    assert(more@.take(more.len() as int) =~= more@);
}

/// The human-readable listing, as bytes to write out.
pub fn human_listing(artifacts: &Vec<Artifact>) -> (out: Vec<u8>)
    ensures
        out@ == spec_human(artifacts@),
{
    let mut out: Vec<u8> = Vec::new();
    let mut i: usize = 0;
    assert(artifacts@.take(0) =~= Seq::<Artifact>::empty());
    while i < artifacts.len()
        invariant
            i <= artifacts.len(),
            out@ == spec_human(artifacts@.take(i as int)),
        decreases artifacts.len() - i,
    {
        let a = &artifacts[i];
        out.push(0x3d);
        out.push(0x3d);
        out.push(0x3e);
        out.push(0x20);
        push_bytes(&mut out, a.name.as_str().as_bytes());
        out.push(0x20);
        out.push(0x3c);
        out.push(0x3d);
        out.push(0x3d);
        out.push(0x0a);
        push_bytes(&mut out, a.bytes.as_slice());
        out.push(0x0a);
        assert(artifacts@.take(i + 1).drop_last() =~= artifacts@.take(i as int));
        assert(out@ =~= spec_human(artifacts@.take(i + 1)));
        i += 1;
    }
    assert(artifacts@.take(artifacts.len() as int) =~= artifacts@);
    out
}

/// What the machine-readable listing says of one artifact.
#[derive(Debug)]
pub struct JsonRecord {
    pub name: String,
    /// The start, cut to its low 64 bits.
    pub start: u64,
    pub pid: u32,
    /// The artifact's text, any invalid UTF-8 replaced.
    pub contents: String,
}

/// The machine-readable record of `a`.
pub fn json_record(a: &Artifact) -> (record: JsonRecord)
    ensures
        record.name@ == a.name@,
        record.start == a.id.start as u64,
        record.pid == a.id.pid,
        record.contents@ == utf8_lossy(a.bytes@),
{
    let mut name_chars: Vec<char> = Vec::new();
    crate::text::push_str(&mut name_chars, a.name.as_str());
    JsonRecord {
        name: crate::text::string_of(&name_chars),
        start: a.id.start as u64,
        pid: a.id.pid,
        contents: lossy_string(a.bytes.as_slice()),
    }
}

} // verus!
