//! The environment block a Windows child process is created with.
//!
//! Windows environment variables are case-insensitive, and the caller is
//! responsible for removing duplicates.  The block holds the configured
//! variables first and then the inherited ones, each `name=value` and a NUL,
//! dropping any whose name (compared with ASCII letters upper-cased) came
//! earlier, so a configured variable always wins over an inherited one.  The
//! block ends with one more NUL.  With nothing configured there is no block
//! at all, and the child inherits the parent's environment.
//!
//! Names and values are UTF-16 code units, as the system takes them.

use vstd::prelude::*;

verus! {

/// One variable: its name and its value.
pub type EnvPair = (Vec<u16>, Vec<u16>);

/// `u` with an ASCII lower-case letter raised to upper case.
pub open spec fn ascii_upper(u: u16) -> u16 {
    if 0x61 <= u <= 0x7a {
        (u - 32) as u16
    } else {
        u
    }
}

/// A name as the case-insensitive comparison sees it.
pub open spec fn folded(name: Seq<u16>) -> Seq<u16> {
    name.map_values(|u: u16| ascii_upper(u))
}

/// Whether the variable at `i` is the first with its name.
pub open spec fn first_of_its_name(pairs: Seq<(Seq<u16>, Seq<u16>)>, i: int) -> bool {
    forall|j: int| 0 <= j < i ==> folded(#[trigger] pairs[j].0) != folded(pairs[i].0)
}

/// The variables that go into the block, in order: the first of each name.
pub open spec fn kept(pairs: Seq<(Seq<u16>, Seq<u16>)>) -> Seq<(Seq<u16>, Seq<u16>)>
    decreases pairs.len(),
{
    if pairs.len() == 0 {
        Seq::empty()
    } else {
        let rest = kept(pairs.drop_last());
        if first_of_its_name(pairs, pairs.len() - 1) {
            rest.push(pairs.last())
        } else {
            rest
        }
    }
}

/// `name=value` and a NUL for each variable.
pub open spec fn entries(pairs: Seq<(Seq<u16>, Seq<u16>)>) -> Seq<u16>
    decreases pairs.len(),
{
    if pairs.len() == 0 {
        Seq::empty()
    } else {
        entries(pairs.drop_last()) + pairs.last().0 + seq![0x3du16] + pairs.last().1 + seq![0u16]
    }
}

pub open spec fn pair_views(pairs: Seq<EnvPair>) -> Seq<(Seq<u16>, Seq<u16>)> {
    pairs.map_values(|p: EnvPair| (p.0@, p.1@))
}

/// The block for `custom` configured variables over `inherited` ones.
pub open spec fn spec_env_block(custom: Seq<(Seq<u16>, Seq<u16>)>, inherited: Seq<(Seq<u16>, Seq<u16>)>) -> Option<
    Seq<u16>,
> {
    if custom.len() == 0 {
        None
    } else {
        Some(entries(kept(custom + inherited)).push(0))
    }
}

fn upper(u: u16) -> (r: u16)
    ensures
        r == ascii_upper(u),
{
    if 0x61 <= u && u <= 0x7a {
        u - 32
    } else {
        u
    }
}

/// Whether two names are the same once ASCII letters are upper-cased.
fn same_name(a: &Vec<u16>, b: &Vec<u16>) -> (same: bool)
    ensures
        same == (folded(a@) == folded(b@)),
{
    if a.len() != b.len() {
        assert(folded(a@).len() != folded(b@).len());
        return false;
    }
    let mut i: usize = 0;
    while i < a.len()
        invariant
            i <= a.len() == b.len(),
            forall|k: int| 0 <= k < i ==> ascii_upper(a@[k]) == ascii_upper(b@[k]),
        decreases a.len() - i,
    {
        if upper(a[i]) != upper(b[i]) {
            assert(folded(a@)[i as int] != folded(b@)[i as int]);
            return false;
        }
        i += 1;
    }
    assert(folded(a@) =~= folded(b@));
    true
}

fn push_all(out: &mut Vec<u16>, more: &Vec<u16>)
    ensures
        final(out)@ == old(out)@ + more@,
{
    let mut i: usize = 0;
    while i < more.len()
        invariant
            i <= more.len(),
            out@ == old(out)@ + more@.take(i as int),
        decreases more.len() - i,
    {
        out.push(more[i]);
        assert(more@.take(i + 1) =~= more@.take(i as int).push(more@[i as int]));
        i += 1;
    }
    assert(more@.take(more.len() as int) =~= more@);
}

/// Whether any of `pairs[0..upto]` has the name `name`.
fn named_before(pairs: &Vec<EnvPair>, upto: usize, name: &Vec<u16>) -> (found: bool)
    requires
        upto <= pairs.len(),
    ensures
        found == exists|j: int| 0 <= j < upto && folded(#[trigger] pair_views(pairs@)[j].0) == folded(name@),
{
    let ghost views = pair_views(pairs@);
    let mut j: usize = 0;
    while j < upto
        invariant
            j <= upto <= pairs.len(),
            views == pair_views(pairs@),
            forall|k: int| 0 <= k < j ==> folded(#[trigger] views[k].0) != folded(name@),
        decreases upto - j,
    {
        if same_name(&pairs[j].0, name) {
            assert(folded(views[j as int].0) == folded(name@));
            return true;
        }
        j += 1;
    }
    false
}

/// The environment block a child gets for the configured variables
/// `custom`, over the variables this process inherited, or nothing when
/// nothing is configured.
pub fn env_block(custom: &Vec<EnvPair>, inherited: &Vec<EnvPair>) -> (block: Option<Vec<u16>>)
    ensures
        match spec_env_block(pair_views(custom@), pair_views(inherited@)) {
            None => block is None,
            Some(b) => block matches Some(v) && v@ == b,
        },
{
    if custom.len() == 0 {
        return None;
    }
    let ghost all = pair_views(custom@) + pair_views(inherited@);
    let ghost nc = custom.len() as int;
    let mut out: Vec<u16> = Vec::new();
    let mut i: usize = 0;
    assert(all.take(0) =~= Seq::<(Seq<u16>, Seq<u16>)>::empty());
    while i < custom.len()
        invariant
            i <= custom.len(),
            nc == custom.len(),
            all == pair_views(custom@) + pair_views(inherited@),
            out@ == entries(kept(all.take(i as int))),
        decreases custom.len() - i,
    {
        let taken = named_before(custom, i, &custom[i].0);
        let ghost before_out = out@;
        proof {
            let views = pair_views(custom@);
            let pre = all.take(i + 1);
            assert(pre.drop_last() =~= all.take(i as int));
            assert(pre[i as int] == views[i as int]);
            assert(views[i as int].0 == custom@[i as int].0@);
            if taken {
                let j = choose|j: int| 0 <= j < i && folded(#[trigger] views[j].0) == folded(
                    custom@[i as int].0@,
                );
                assert(pre[j] == views[j]);
                assert(!first_of_its_name(pre, i as int));
            } else {
                assert forall|j: int| 0 <= j < i implies folded(#[trigger] pre[j].0) != folded(
                    pre[i as int].0,
                ) by {
                    assert(pre[j] == views[j]);
                }
            }
        }
        if !taken {
            push_all(&mut out, &custom[i].0);
            out.push(0x3d);
            push_all(&mut out, &custom[i].1);
            out.push(0);
        }
        proof {
            let views = pair_views(custom@);
            let pre = all.take(i + 1);
            assert(pre.last() == views[i as int]);
            if !taken {
                assert(kept(pre) == kept(all.take(i as int)).push(pre.last()));
                assert(kept(pre).drop_last() =~= kept(all.take(i as int)));
                assert(out@ =~= entries(kept(pre)));
            } else {
                assert(kept(pre) == kept(all.take(i as int)));
            }
        }
        i += 1;
    }
    let mut k: usize = 0;
    while k < inherited.len()
        invariant
            k <= inherited.len(),
            nc == custom.len(),
            all == pair_views(custom@) + pair_views(inherited@),
            out@ == entries(kept(all.take(nc + k))),
        decreases inherited.len() - k,
    {
        let in_custom = named_before(custom, custom.len(), &inherited[k].0);
        let in_inherited = named_before(inherited, k, &inherited[k].0);
        let taken = in_custom || in_inherited;
        proof {
            let pre = all.take(nc + k + 1);
            assert(pre.drop_last() =~= all.take(nc + k));
            assert(pre.last() == all[nc + k]);
            assert forall|j: int| 0 <= j < nc implies #[trigger] pre[j] == pair_views(custom@)[j] by {}
            assert forall|j: int| nc <= j < nc + k implies #[trigger] pre[j] == pair_views(
                inherited@,
            )[j - nc] by {}
            if in_custom {
                let j = choose|j: int| 0 <= j < nc && folded(#[trigger] pair_views(custom@)[j].0)
                    == folded(inherited@[k as int].0@);
                assert(pre[j] == pair_views(custom@)[j]);
            }
            if in_inherited {
                let j = choose|j: int| 0 <= j < k && folded(#[trigger] pair_views(inherited@)[j].0)
                    == folded(inherited@[k as int].0@);
                assert(pre[nc + j] == pair_views(inherited@)[j]);
            }
            assert(pre[nc + k] == pair_views(inherited@)[k as int]);
            assert(pair_views(inherited@)[k as int].0 == inherited@[k as int].0@);
            if !taken {
                assert forall|j: int| 0 <= j < nc + k implies folded(#[trigger] pre[j].0) != folded(
                    pre[nc + k].0,
                ) by {
                    if j < nc {
                        assert(pre[j] == pair_views(custom@)[j]);
                    } else {
                        assert(pre[j] == pair_views(inherited@)[j - nc]);
                    }
                }
            }
            assert(first_of_its_name(pre, nc + k) == !taken);
        }
        if !taken {
            push_all(&mut out, &inherited[k].0);
            out.push(0x3d);
            push_all(&mut out, &inherited[k].1);
            out.push(0);
        }
        proof {
            let pre = all.take(nc + k + 1);
            assert(pre.last() == pair_views(inherited@)[k as int]);
            if !taken {
                assert(kept(pre) == kept(all.take(nc + k)).push(pre.last()));
                assert(kept(pre).drop_last() =~= kept(all.take(nc + k)));
                assert(out@ =~= entries(kept(pre)));
            } else {
                assert(kept(pre) == kept(all.take(nc + k)));
            }
        }
        k += 1;
    }
    assert(all.take(nc + inherited.len()) =~= all);
    out.push(0);
    Some(out)
}

proof fn lemma_kept_members(pairs: Seq<(Seq<u16>, Seq<u16>)>)
    ensures
        forall|k: int|
            0 <= k < kept(pairs).len() ==> exists|j: int|
                0 <= j < pairs.len() && first_of_its_name(pairs, j) && #[trigger] kept(pairs)[k]
                    == pairs[j],
    decreases pairs.len(),
{
    if pairs.len() > 0 {
        let shorter = pairs.drop_last();
        lemma_kept_members(shorter);
        let n = pairs.len() - 1;
        assert forall|k: int| 0 <= k < kept(pairs).len() implies exists|j: int|
            0 <= j < pairs.len() && first_of_its_name(pairs, j) && #[trigger] kept(pairs)[k]
                == pairs[j] by {
            if k < kept(shorter).len() {
                let j = choose|j: int|
                    0 <= j < shorter.len() && first_of_its_name(shorter, j) && #[trigger] kept(
                        shorter,
                    )[k] == shorter[j];
                assert(kept(pairs)[k] == kept(shorter)[k]);
                assert(shorter[j] == pairs[j]);
                assert forall|i: int| 0 <= i < j implies folded(#[trigger] pairs[i].0) != folded(
                    pairs[j].0,
                ) by {
                    assert(shorter[i] == pairs[i]);
                }
            } else {
                assert(kept(pairs)[k] == pairs[n]);
            }
        }
    }
}

/// No name is set twice in a block, whatever its case: the system would
/// take either one, and the caller has to choose.
pub proof fn no_name_is_set_twice(pairs: Seq<(Seq<u16>, Seq<u16>)>)
    ensures
        forall|a: int, b: int|
            0 <= a < b < kept(pairs).len() ==> folded(#[trigger] kept(pairs)[a].0) != folded(
                #[trigger] kept(pairs)[b].0,
            ),
    decreases pairs.len(),
{
    if pairs.len() > 0 {
        let shorter = pairs.drop_last();
        no_name_is_set_twice(shorter);
        lemma_kept_members(shorter);
        let n = pairs.len() - 1;
        assert forall|a: int, b: int| 0 <= a < b < kept(pairs).len() implies folded(
            #[trigger] kept(pairs)[a].0,
        ) != folded(#[trigger] kept(pairs)[b].0) by {
            assert(kept(pairs)[a] == kept(shorter)[a]);
            if b < kept(shorter).len() {
                assert(kept(pairs)[b] == kept(shorter)[b]);
            } else {
                assert(kept(pairs)[b] == pairs[n]);
                let j = choose|j: int|
                    0 <= j < shorter.len() && first_of_its_name(shorter, j) && #[trigger] kept(
                        shorter,
                    )[a] == shorter[j];
                assert(shorter[j] == pairs[j]);
            }
        }
    }
}

/// A configured variable always wins over an inherited one of the same
/// name: whatever the block holds under a configured name is the first
/// configured variable of that name.
pub proof fn configured_variables_win(
    custom: Seq<(Seq<u16>, Seq<u16>)>,
    inherited: Seq<(Seq<u16>, Seq<u16>)>,
    set: (Seq<u16>, Seq<u16>),
    configured: int,
)
    requires
        kept(custom + inherited).contains(set),
        0 <= configured < custom.len(),
        folded(custom[configured].0) == folded(set.0),
    ensures
        exists|c: int| 0 <= c < custom.len() && custom[c] == set && first_of_its_name(custom, c),
{
    let pairs = custom + inherited;
    lemma_kept_members(pairs);
    let k = choose|k: int| 0 <= k < kept(pairs).len() && kept(pairs)[k] == set;
    let j = choose|j: int|
        0 <= j < pairs.len() && first_of_its_name(pairs, j) && #[trigger] kept(pairs)[k] == pairs[j];
    assert(pairs[configured] == custom[configured]);
    if j >= custom.len() {
        assert(folded(pairs[configured].0) == folded(pairs[j].0));
        assert(false);
    }
    assert(pairs[j] == custom[j]);
    assert forall|i: int| 0 <= i < j implies folded(#[trigger] custom[i].0) != folded(custom[j].0) by {
        assert(pairs[i] == custom[i]);
    }
}

} // verus!
