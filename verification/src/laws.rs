//! What the engine guarantees, stated and proved over the models that the
//! executable functions' contracts use.

use vstd::prelude::*;

use crate::hashing::leaf_of;
use crate::merkle::combine;
use crate::merkle::full_nodes;
use crate::merkle::pad_even;
use crate::merkle::tail_of;
use crate::merkle::steps_of;
use crate::merkle::root_of;
use crate::hashing::hash2;
use crate::merkle::scan;
use crate::merkle::spec_get_proof;
use crate::merkle::spec_root;
use crate::state::spec_check_proof;

verus! {

/// A scan over a stretch of the buffer that nowhere holds the hunted value,
/// for a hunted value that is not the root, finds nothing.
proof fn lemma_scan_no_match(
    nodes: Seq<Seq<char>>,
    root: Seq<char>,
    steps: Seq<int>,
    start: int,
    end: int,
    idx: int,
    k: int,
    hunted: Seq<char>,
    acc: Seq<Seq<char>>,
)
    requires
        0 <= idx,
        0 <= k <= steps.len(),
        forall|i: int| 0 <= i < steps.len() ==> 0 <= #[trigger] steps[i],
        hunted != root,
        forall|p: int|
            start + idx <= p < end && p < nodes.len() ==> #[trigger] nodes[p] != hunted,
    ensures
        scan(nodes, root, steps, start, end, idx, k, hunted, acc) is None,
    decreases end - start - idx,
{
    if start + idx >= end {
    } else if start + idx >= nodes.len() {
    } else {
        assert(nodes[start + idx] != hunted);
        lemma_scan_no_match(nodes, root, steps, start, end, idx + 1, k, hunted, acc);
    }
}

/// Negative lookup: a value that stands nowhere in the padded leaf level
/// and is not the root is reported not-found — by the proof generator, and
/// so by the membership checker, whose result is stated over the same
/// traversal.
pub proof fn lemma_negative_lookup(leaves: Seq<Seq<char>>, target: Seq<char>)
    requires
        2 <= leaves.len(),
        !leaves.contains(target),
        target != spec_root(leaves),
    ensures
        spec_get_proof(leaves, target) is None,
{
    let nodes = full_nodes(leaves);
    let steps = crate::merkle::steps_of(leaves);
    crate::merkle::lemma_steps_entries_nonneg(leaves);
    assert forall|p: int| 0 <= p < leaves.len() as int && p < nodes.len() implies #[trigger] nodes[p]
        != target by {
        assert(nodes[p] == leaves[p]);
        assert(leaves.contains(leaves[p]));
    }
    lemma_scan_no_match(
        nodes,
        spec_root(leaves),
        steps,
        0,
        leaves.len() as int,
        0,
        0,
        target,
        Seq::empty(),
    );
}

/// The level sizes on which the traversal's scan windows stay aligned with
/// the levels of the flat buffer: every level is even-sized until the
/// widened windows near the root take over (sizes three and two).  An
/// odd-sized level of five or more entries shifts every later window by
/// one slot, and the traversal then hunts pairs that construction never
/// hashed.
pub open spec fn good_level(level: Seq<Seq<char>>) -> bool
    decreases level.len(),
    when level.len() >= 2
{
    ||| level.len() == 2
    ||| level.len() == 3
    ||| (level.len() >= 4 && level.len() % 2 == 0 && good_level(combine(level)))
}

/// The aligned-window induction: a scan whose window covers a level that
/// somewhere holds the hunted value climbs level by level and ends at the
/// root.
proof fn lemma_scan_complete(
    nodes: Seq<Seq<char>>,
    root: Seq<char>,
    steps: Seq<int>,
    level: Seq<Seq<char>>,
    start: int,
    end: int,
    idx: int,
    k: int,
    hunted: Seq<char>,
    acc: Seq<Seq<char>>,
)
    requires
        2 <= level.len(),
        good_level(level),
        0 <= start,
        0 <= idx,
        0 <= k <= steps.len(),
        forall|i: int| 0 <= i < steps.len() ==> 0 <= #[trigger] steps[i],
        nodes.skip(start) == level + tail_of(level),
        start + level.len() + tail_of(level).len() == nodes.len(),
        steps.skip(k) == steps_of(level),
        root == root_of(level),
        (level.len() % 2 == 0 && end == start + level.len()) || (level.len() == 2 && end == start
            + 3) || (level.len() == 3 && end == start + 4),
        exists|j: int| idx <= j < level.len() && level[j] == hunted,
    ensures
        scan(nodes, root, steps, start, end, idx, k, hunted, acc) matches Some(p) && p.len() >= 1
            && p.last() == root,
    decreases level.len(), level.len() - idx,
{
    let size = level.len() as int;
    let padded = pad_even(level);
    let next = combine(padded);
    let tail = tail_of(level);
    assert(nodes.len() - start == size + tail.len());
    assert forall|j: int| 0 <= j < size implies nodes[start + j] == level[j] by {
        assert(nodes.skip(start)[j] == (level + tail)[j]);
        assert(nodes.skip(start)[j] == nodes[start + j]);
    }
    assert forall|j: int| 0 <= j < tail.len() implies nodes[start + size + j] == tail[j] by {
        assert(nodes.skip(start)[size + j] == (level + tail)[size + j]);
        assert(nodes.skip(start)[size + j] == nodes[start + size + j]);
    }
    let witness = choose|j: int| idx <= j < size && level[j] == hunted;
    assert(idx < size);
    assert(start + idx < end);
    assert(steps.skip(k).len() == steps_of(level).len());
    assert(k < steps.len());
    assert(steps[k] == steps_of(level)[0]);

    if hunted == root {
        assert(scan(nodes, root, steps, start, end, idx, k, hunted, acc) == Some(acc.push(hunted)));
    } else if nodes[start + idx] == hunted {
        let taken = acc.push(hunted);
        // The value hunted next: the parent that construction hashed for
        // the matched pair.
        if next.len() == 1 {
            // The level below the root: its two entries pair into the root.
            assert(size == 2);
            assert(idx < 2) by {
                if idx == 2 {
                    assert(nodes[start + 2] == tail[0]);
                }
            }
            let h2 = if idx % 2 == 1 {
                hash2(nodes[start + idx - 1], nodes[start + idx])
            } else {
                hash2(nodes[start + idx], nodes[start + idx + 1])
            };
            assert(h2 == hash2(level[0], level[1]));
            assert(h2 == next[0]);
            assert(h2 == root);
            assert(steps_of(level)[0] == 1);
            let start2 = end;
            let end2 = end + steps[k];
            assert(scan(nodes, root, steps, start2, end2, 0, k + 1, h2, taken) == Some(
                taken.push(h2),
            ));
            assert(scan(nodes, root, steps, start, end, idx, k, hunted, acc) == Some(
                taken.push(h2),
            ));
        } else {
            // An inner level: the matched entry pairs with its sibling by
            // window-offset parity, and the parent stands in the next
            // level, whose window begins where this level's entries (and
            // pad) end.
            assert(next.len() >= 2);
            assert(tail == (if size % 2 == 1 {
                seq![level.last()]
            } else {
                Seq::<Seq<char>>::empty()
            }) + next + tail_of(next));
            let pad_len: int = if size % 2 == 1 {
                1
            } else {
                0
            };
            assert(tail.len() == pad_len + next.len() + tail_of(next).len());
            assert(idx < size);
            let h2 = if idx % 2 == 1 {
                hash2(nodes[start + idx - 1], nodes[start + idx])
            } else {
                hash2(nodes[start + idx], nodes[start + idx + 1])
            };
            let pair: int = idx / 2;
            assert(0 <= 2 * pair < padded.len());
            assert(2 * pair + 1 < padded.len());
            if idx % 2 == 1 {
                assert(nodes[start + idx - 1] == level[idx - 1]);
                assert(nodes[start + idx] == level[idx]);
                assert(padded[2 * pair] == level[idx - 1]);
                assert(padded[2 * pair + 1] == level[idx]);
            } else {
                assert(nodes[start + idx] == level[idx]);
                assert(padded[2 * pair] == level[idx]);
                if idx + 1 < size {
                    assert(nodes[start + idx + 1] == level[idx + 1]);
                    assert(padded[2 * pair + 1] == level[idx + 1]);
                } else {
                    // The matched entry is the odd tail; its sibling is the
                    // pad duplicate that construction appended.
                    assert(size % 2 == 1 && idx == size - 1);
                    assert(nodes[start + size] == tail[0]);
                    assert(tail[0] == level.last());
                    assert(padded[2 * pair + 1] == level.last());
                }
            }
            assert(h2 == hash2(padded[2 * pair], padded[2 * pair + 1]));
            assert(h2 == next[pair]);

            let start2 = end;
            let end2 = end + steps[k];
            let span = steps_of(level)[0];
            assert(span == if next.len() / 2 == 1 {
                next.len() + 1int
            } else {
                next.len() as int
            });
            // The next window starts exactly where the next level stands in
            // the buffer.
            assert(end == start + size + pad_len);
            assert forall|j: int| 0 <= j < nodes.len() - start2 implies nodes.skip(start2)[j] == (
            next + tail_of(next))[j] by {
                assert(nodes.skip(start2)[j] == nodes[start2 + j]);
                assert(nodes[start + size + (pad_len + j)] == tail[pad_len + j]);
            }
            assert(nodes.skip(start2) =~= next + tail_of(next));
            assert(start2 + next.len() + tail_of(next).len() == nodes.len());
            assert(steps_of(level) == seq![span] + steps_of(next));
            assert(steps.len() - (k + 1) == steps_of(next).len());
            assert forall|i: int| 0 <= i < steps_of(next).len() implies steps.skip(k + 1)[i]
                == steps_of(next)[i] by {
                assert(steps.skip(k + 1)[i] == steps[k + 1 + i]);
                assert(steps.skip(k)[i + 1] == steps[k + 1 + i]);
                assert((seq![span] + steps_of(next))[i + 1] == steps_of(next)[i]);
            }
            assert(steps.skip(k + 1) =~= steps_of(next));
            assert(root == root_of(next));
            assert(good_level(next));
            assert((next.len() % 2 == 0 && end2 == start2 + next.len()) || (next.len() == 2 && end2
                == start2 + 3) || (next.len() == 3 && end2 == start2 + 4));
            assert(exists|j: int| 0 <= j < next.len() && next[j] == h2) by {
                assert(next[pair] == h2);
            }
            lemma_scan_complete(nodes, root, steps, next, start2, end2, 0, k + 1, h2, taken);
            assert(scan(nodes, root, steps, start, end, idx, k, hunted, acc) == scan(
                nodes,
                root,
                steps,
                start2,
                end2,
                0,
                k + 1,
                h2,
                taken,
            ));
        }
    } else {
        assert(nodes[start + idx] == level[idx]);
        assert(witness != idx);
        assert(exists|j: int| idx + 1 <= j < size && level[j] == hunted) by {
            assert(idx + 1 <= witness < size && level[witness] == hunted);
        }
        lemma_scan_complete(nodes, root, steps, level, start, end, idx + 1, k, hunted, acc);
        assert(scan(nodes, root, steps, start, end, idx, k, hunted, acc) == scan(
            nodes,
            root,
            steps,
            start,
            end,
            idx + 1,
            k,
            hunted,
            acc,
        ));
    }
}

/// Completeness: on a tree whose level sizes keep the scan windows aligned,
/// every value present in the padded leaf level is found, and the canonical
/// proof ends at the root.  (On other sizes the recorded windows drift off
/// the levels and the traversal can miss committed leaves; the engine
/// reproduces that recorded behaviour exactly.)
pub proof fn lemma_completeness(leaves: Seq<Seq<char>>, target: Seq<char>)
    requires
        2 <= leaves.len(),
        leaves.len() % 2 == 0,
        good_level(leaves),
        leaves.contains(target),
    ensures
        spec_get_proof(leaves, target) matches Some(p) && p.len() >= 1 && p.last() == spec_root(
            leaves,
        ),
{
    let nodes = full_nodes(leaves);
    let steps = crate::merkle::steps_of(leaves);
    crate::merkle::lemma_steps_entries_nonneg(leaves);
    assert(nodes.skip(0) =~= leaves + tail_of(leaves));
    assert(0 + leaves.len() + tail_of(leaves).len() == nodes.len());
    assert(steps.skip(0) =~= steps);
    assert(exists|i: int| 0 <= i < leaves.len() && leaves[i] == target);
    lemma_scan_complete(
        nodes,
        spec_root(leaves),
        steps,
        leaves,
        0,
        leaves.len() as int,
        0,
        0,
        target,
        Seq::empty(),
    );
}

/// Soundness: the verifier accepts exactly the canonical proof, so any
/// change to an accepted proof — one hash substituted, the list truncated
/// or extended, entries reordered — is rejected.
pub proof fn lemma_proof_soundness(
    leaves_opt: Option<Seq<Seq<char>>>,
    identity: Seq<u8>,
    accepted: Seq<Seq<char>>,
    altered: Seq<Seq<char>>,
)
    requires
        spec_check_proof(leaves_opt, identity, accepted),
        altered != accepted,
    ensures
        !spec_check_proof(leaves_opt, identity, altered),
{
}

/// Round trip, positive half: whenever the proof generator yields a
/// canonical proof for a committed identity, the verifier accepts exactly
/// that proof.
pub proof fn lemma_round_trip_accepts(
    leaves: Seq<Seq<char>>,
    identity: Seq<u8>,
    canonical: Seq<Seq<char>>,
)
    requires
        spec_get_proof(leaves, leaf_of(identity)) == Some(canonical),
    ensures
        spec_check_proof(Some(leaves), identity, canonical),
{
}

/// Round trip, negative half: an identity whose leaf stands nowhere in the
/// padded leaf level (and is not the root) is rejected whatever proof it
/// submits — another identity's valid proof included.
pub proof fn lemma_round_trip_rejects_outsider(
    leaves: Seq<Seq<char>>,
    identity: Seq<u8>,
    submitted: Seq<Seq<char>>,
)
    requires
        2 <= leaves.len(),
        !leaves.contains(leaf_of(identity)),
        leaf_of(identity) != spec_root(leaves),
    ensures
        !spec_check_proof(Some(leaves), identity, submitted),
{
    lemma_negative_lookup(leaves, leaf_of(identity));
}

} // verus!
