//! The flat-array Merkle tree: construction from leaf hashes, canonical
//! inclusion-proof generation, membership testing, and proof verification.
//!
//! The tree is kept as one flat sequence of hash strings, leaves first and
//! root last, together with a per-level-transition table of index spans
//! (`steps`) that a traversal uses to locate the window of the next level.

use vstd::prelude::*;

use crate::hashing::digest_str;
use crate::hashing::hash2;
use crate::hashing::sha_of;

verus! {

/// A level with an odd number of entries is padded with a duplicate of its
/// last entry, so that pairing is always well-defined.
pub open spec fn pad_even(level: Seq<Seq<char>>) -> Seq<Seq<char>> {
    if level.len() % 2 == 1 {
        level.push(level.last())
    } else {
        level
    }
}

/// One level transition: each consecutive pair of an even-sized level is
/// hashed, left entry's text first, into one parent.
pub open spec fn combine(level: Seq<Seq<char>>) -> Seq<Seq<char>> {
    Seq::new(level.len() / 2, |i: int| hash2(level[2 * i], level[2 * i + 1]))
}

/// Everything that construction appends to the flat buffer after `level`:
/// the duplicate entry that pads `level` when its size is odd, then the next
/// level, then recursively the rest, up to and including the root.
pub open spec fn tail_of(level: Seq<Seq<char>>) -> Seq<Seq<char>>
    decreases level.len(),
    when level.len() >= 2
{
    let padded = pad_even(level);
    let pad_part: Seq<Seq<char>> = if level.len() % 2 == 1 {
        seq![level.last()]
    } else {
        Seq::empty()
    };
    let next = combine(padded);
    if next.len() <= 1 {
        pad_part + next
    } else {
        pad_part + next + tail_of(next)
    }
}

/// The recorded index span for each level transition above `level`.  The
/// span is normally the size of the produced level; when that size is 2 or
/// 3 it is widened by one slot, so that a later traversal's scan window
/// reaches the root even when the next-to-last level is very small.
pub open spec fn steps_of(level: Seq<Seq<char>>) -> Seq<int>
    decreases level.len(),
    when level.len() >= 2
{
    let next = combine(pad_even(level));
    let span: int = if next.len() / 2 == 1 {
        next.len() + 1int
    } else {
        next.len() as int
    };
    if next.len() <= 1 {
        seq![span]
    } else {
        seq![span] + steps_of(next)
    }
}

/// The root that repeated level transitions starting from `level` reach.
pub open spec fn root_of(level: Seq<Seq<char>>) -> Seq<char>
    decreases level.len(),
    when level.len() >= 2
{
    let next = combine(pad_even(level));
    if next.len() <= 1 {
        next[0]
    } else {
        root_of(next)
    }
}

/// The full flat buffer built from an (already padded) leaf level.
pub open spec fn full_nodes(leaves: Seq<Seq<char>>) -> Seq<Seq<char>> {
    leaves + tail_of(leaves)
}

/// Each input string replaced by its digest: the leaf level before padding.
pub open spec fn hashed_of(inputs: Seq<Seq<char>>) -> Seq<Seq<char>> {
    inputs.map_values(|s: Seq<char>| sha_of(s))
}

/// The path-traversal engine, as a function of the traversal state: scan the
/// window `[start + idx, end)` of the flat buffer for `hunted`; on a match,
/// pair it with its sibling by the parity of its window offset, hash the
/// pair into the next value to hunt, and move to the next window as the
/// `steps` table directs; succeed as soon as `hunted` equals the root.  A
/// scan that runs off the recorded tables reports not-found.
pub open spec fn scan(
    nodes: Seq<Seq<char>>,
    root: Seq<char>,
    steps: Seq<int>,
    start: int,
    end: int,
    idx: int,
    k: int,
    hunted: Seq<char>,
    acc: Seq<Seq<char>>,
) -> Option<Seq<Seq<char>>>
    decreases steps.len() - k, end - start - idx,
    when 0 <= idx && 0 <= k <= steps.len() && (forall|i: int|
        0 <= i < steps.len() ==> 0 <= #[trigger] steps[i])
{
    if start + idx >= end {
        None
    } else if hunted == root {
        Some(acc.push(hunted))
    } else if start + idx >= nodes.len() {
        None
    } else if nodes[start + idx] == hunted {
        let taken = acc.push(hunted);
        if k >= steps.len() {
            None
        } else if idx % 2 == 1 {
            scan(
                nodes,
                root,
                steps,
                end,
                end + steps[k],
                0,
                k + 1,
                hash2(nodes[start + idx - 1], nodes[start + idx]),
                taken,
            )
        } else if start + idx + 1 >= nodes.len() {
            None
        } else {
            scan(
                nodes,
                root,
                steps,
                end,
                end + steps[k],
                0,
                k + 1,
                hash2(nodes[start + idx], nodes[start + idx + 1]),
                taken,
            )
        }
    } else {
        scan(nodes, root, steps, start, end, idx + 1, k, hunted, acc)
    }
}

/// The root of a committed tree, as a function of its padded leaf level.
pub open spec fn spec_root(leaves: Seq<Seq<char>>) -> Seq<char> {
    root_of(leaves)
}

/// What the proof generator returns for `target` on the tree committed to
/// `leaves`: the canonical path from the matching leaf to the root, or
/// not-found.
pub open spec fn spec_get_proof(leaves: Seq<Seq<char>>, target: Seq<char>) -> Option<
    Seq<Seq<char>>,
> {
    scan(
        full_nodes(leaves),
        spec_root(leaves),
        steps_of(leaves),
        0,
        leaves.len() as int,
        0,
        0,
        target,
        Seq::empty(),
    )
}

/// Construction failure: the padded leaf level would not fit the one-byte
/// serialization width of the leaf count.
#[derive(Clone, Copy, Debug, PartialEq, Eq, Structural)]
pub enum TreeError {
    WhitelistTooLarge,
}

/// The committed tree: the padded leaf count, the flat buffer of every level
/// (leaves first, root last), the root hash, and the per-transition spans.
pub struct MerkleTree {
    length: u8,
    hash_tree: Vec<String>,
    hashroot: String,
    steps: Vec<u8>,
}

impl MerkleTree {
    /// The flat buffer, as a sequence of hash texts.
    pub closed spec fn nodes_model(self) -> Seq<Seq<char>> {
        self.hash_tree.deep_view()
    }

    /// The recorded spans, as integers.
    pub closed spec fn steps_model(self) -> Seq<int> {
        self.steps@.map_values(|v: u8| v as int)
    }

    /// The root hash text.
    pub closed spec fn root_model(self) -> Seq<char> {
        self.hashroot@
    }

    /// The padded leaf count.
    pub closed spec fn leaf_count(self) -> int {
        self.length as int
    }

    /// The padded leaf level: the first `leaf_count` entries of the buffer.
    pub open spec fn leaves(self) -> Seq<Seq<char>> {
        self.nodes_model().take(self.leaf_count())
    }

    #[verifier::type_invariant]
    spec fn wf(self) -> bool {
        &&& 2 <= self.length
        &&& self.length % 2 == 0
        &&& self.length as int <= self.nodes_model().len()
        &&& self.nodes_model() == full_nodes(self.leaves())
        &&& self.steps_model() == steps_of(self.leaves())
        &&& self.root_model() == self.nodes_model().last()
    }
}

/// Each recorded span is at least 1 and, for a level of at most 254
/// entries, at most 128, so every span fits one byte.
proof fn lemma_steps_of_bounds(level: Seq<Seq<char>>)
    requires
        2 <= level.len(),
        level.len() <= 254,
    ensures
        steps_of(level).len() >= 1,
        steps_of(level).len() <= level.len(),
        forall|i: int|
            0 <= i < steps_of(level).len() ==> 1 <= #[trigger] steps_of(level)[i] <= 128,
    decreases level.len(),
{
    let next = combine(pad_even(level));
    assert(pad_even(level).len() % 2 == 0);
    assert(next.len() == pad_even(level).len() / 2);
    if next.len() > 1 {
        lemma_steps_of_bounds(next);
    }
}

/// Every recorded span is positive, whatever the level's size.
pub proof fn lemma_steps_entries_nonneg(level: Seq<Seq<char>>)
    requires
        2 <= level.len(),
    ensures
        steps_of(level).len() >= 1,
        forall|i: int| 0 <= i < steps_of(level).len() ==> 1 <= #[trigger] steps_of(level)[i],
    decreases level.len(),
{
    let next = combine(pad_even(level));
    assert(pad_even(level).len() % 2 == 0);
    assert(next.len() == pad_even(level).len() / 2);
    if next.len() > 1 {
        lemma_steps_entries_nonneg(next);
    }
}

/// The last entry that construction appends is the root.
proof fn lemma_tail_of_last(level: Seq<Seq<char>>)
    requires
        2 <= level.len(),
    ensures
        tail_of(level).len() >= 1,
        tail_of(level).last() == root_of(level),
    decreases level.len(),
{
    let next = combine(pad_even(level));
    if next.len() > 1 {
        lemma_tail_of_last(next);
    }
}

/// The appended part of the buffer is at most twice the leaf level.
proof fn lemma_tail_of_len(level: Seq<Seq<char>>)
    requires
        2 <= level.len(),
    ensures
        tail_of(level).len() <= 2 * level.len(),
    decreases level.len(),
{
    let next = combine(pad_even(level));
    if next.len() > 1 {
        lemma_tail_of_len(next);
    }
}

/// Appends one hash text to the flat buffer, keeping its model in step.
pub(crate) fn push_hash(v: &mut Vec<String>, x: String)
    ensures
        final(v).deep_view() == old(v).deep_view().push(x@),
{
    let ghost xv = x@;
    let ghost prev = v.deep_view();
    let ghost prevv = v@;
    v.push(x);
    proof {
        assert forall|j: int| 0 <= j < v.deep_view().len() implies v.deep_view()[j] == prev.push(
            xv,
        )[j] by {
            assert(v.deep_view()[j] == v@[j]@);
            if j < prevv.len() {
                assert(v@[j] == prevv[j]);
                assert(prev[j] == prevv[j]@);
            }
        }
        assert(v.deep_view() =~= prev.push(xv));
    }
}

/// Moves one level's hashes to the end of the flat buffer, keeping the
/// models in step.
fn append_hashes(v: &mut Vec<String>, other: &mut Vec<String>)
    ensures
        final(v).deep_view() == old(v).deep_view() + old(other).deep_view(),
        final(other)@.len() == 0,
{
    let ghost prev = v.deep_view();
    let ghost prevv = v@;
    let ghost add = other.deep_view();
    let ghost addv = other@;
    v.append(other);
    proof {
        assert forall|j: int| 0 <= j < v.deep_view().len() implies v.deep_view()[j] == (prev
            + add)[j] by {
            assert(v.deep_view()[j] == v@[j]@);
            if j < prevv.len() {
                assert(v@[j] == prevv[j]);
                assert(prev[j] == prevv[j]@);
            } else {
                assert(v@[j] == addv[j - prevv.len()]);
                assert(add[j - prevv.len()] == addv[j - prevv.len()]@);
            }
        }
        assert(v.deep_view() =~= prev + add);
    }
}

/// Builds the committed tree from a list of raw node texts.  Every input is
/// first digested into a leaf; an odd leaf list is padded with a duplicate
/// of its last leaf; then levels are folded pairwise until a single root
/// remains.  An empty input yields no tree; a padded leaf level beyond the
/// one-byte serialization width is reported as an error rather than
/// truncated.
#[verifier::rlimit(60)]
pub fn create_hash_tree(nodes: Vec<String>) -> (r: Result<Option<MerkleTree>, TreeError>)
    ensures
        nodes@.len() == 0 ==> r == Result::<Option<MerkleTree>, TreeError>::Ok(None),
        nodes@.len() > 0 && pad_even(hashed_of(nodes.deep_view())).len() > 255 ==> r == Result::<
            Option<MerkleTree>,
            TreeError,
        >::Err(TreeError::WhitelistTooLarge),
        nodes@.len() > 0 && pad_even(hashed_of(nodes.deep_view())).len() <= 255 ==> (r matches Ok(
            Some(t),
        ) && t.leaves() == pad_even(hashed_of(nodes.deep_view()))),
{
    let ghost inputs = nodes.deep_view();
    if nodes.len() == 0 {
        return Ok(None);
    }
    let mut working_vec: Vec<String> = Vec::new();
    let mut i: usize = 0;
    while i < nodes.len()
        invariant
            i <= nodes@.len(),
            inputs == nodes.deep_view(),
            working_vec.deep_view() =~= hashed_of(inputs).take(i as int),
        decreases nodes@.len() - i,
    {
        let digested = digest_str(nodes[i].as_str());
        proof {
            assert(digested@ == sha_of(inputs[i as int]));
        }
        push_hash(&mut working_vec, digested);
        i += 1;
        proof {
            assert(working_vec.deep_view() =~= hashed_of(inputs).take(i as int));
        }
    }
    proof {
        assert(hashed_of(inputs).take(inputs.len() as int) =~= hashed_of(inputs));
    }

    if working_vec.len() >= 255 {
        proof {
            assert(pad_even(hashed_of(inputs)).len() > 255);
        }
        return Err(TreeError::WhitelistTooLarge);
    }

    let mut working_node_total: usize = working_vec.len();
    let mut steps: Vec<u8> = Vec::new();

    if working_vec.len() % 2 == 1 {
        let dup = working_vec[working_node_total - 1].clone();
        push_hash(&mut working_vec, dup);
        working_node_total += 1;
    }
    let ghost pl = pad_even(hashed_of(inputs));
    proof {
        assert(working_vec.deep_view() =~= pl);
        lemma_tail_of_len(pl);
    }

    let initial_length = working_node_total;
    let mut startpoint: usize = 0;
    let ghost mut lvl: Seq<Seq<char>> = pl;
    let ghost mut prefix: Seq<Seq<char>> = Seq::empty();

    proof {
        assert(prefix + lvl =~= working_vec.deep_view());
        assert(Seq::<u8>::empty().map_values(|v: u8| v as int) + steps_of(lvl) =~= steps_of(pl));
    }

    loop
        invariant
            inputs == nodes.deep_view(),
            inputs.len() > 0,
            pl == pad_even(hashed_of(inputs)),
            2 <= pl.len() <= 254,
            2 <= lvl.len() <= 254,
            prefix.len() == startpoint as int,
            startpoint % 2 == 0,
            working_node_total == working_vec@.len(),
            working_vec.deep_view() == prefix + lvl,
            working_vec.deep_view() + tail_of(lvl) == full_nodes(pl),
            full_nodes(pl).len() <= 762,
            steps@.map_values(|v: u8| v as int) + steps_of(lvl) == steps_of(pl),
            initial_length == pl.len(),
        decreases lvl.len(),
    {
        proof {
            assert(working_vec@.len() <= 762);
        }
        if working_node_total % 2 == 1 {
            let dup = working_vec[working_vec.len() - 1].clone();
            proof {
                assert(working_vec.deep_view().last() == lvl.last());
            }
            push_hash(&mut working_vec, dup);
        }
        let ghost padded = pad_even(lvl);
        proof {
            assert(working_vec.deep_view() =~= prefix + padded);
        }

        let mut vec_to_add: Vec<String> = Vec::new();
        let mut index: usize = startpoint;
        while index < working_vec.len()
            invariant
                startpoint <= index <= working_vec@.len(),
                (index - startpoint) % 2 == 0,
                working_vec@.len() - startpoint == padded.len(),
                working_vec@.len() <= 763,
                prefix.len() == startpoint as int,
                padded.len() % 2 == 0,
                working_vec.deep_view() == prefix + padded,
                vec_to_add.deep_view() =~= combine(padded).take((index - startpoint) as int / 2),
            decreases working_vec@.len() - index,
        {
            let cat = working_vec[index].clone().concat(working_vec[index + 1].as_str());
            let parent = digest_str(cat.as_str());
            proof {
                assert(working_vec.deep_view()[index as int] == padded[index - startpoint]);
                assert(working_vec.deep_view()[index as int + 1] == padded[index - startpoint + 1]);
                assert(parent@ == hash2(padded[index - startpoint], padded[index - startpoint + 1]));
            }
            push_hash(&mut vec_to_add, parent);
            index += 2;
            proof {
                let w = (index - startpoint) as int / 2;
                assert(combine(padded)[w - 1] == hash2(padded[2 * (w - 1)], padded[2 * (w - 1) + 1]));
                assert(vec_to_add.deep_view() =~= combine(padded).take(w));
            }
        }
        proof {
            assert(combine(padded).take((index - startpoint) as int / 2) =~= combine(padded));
        }

        let next_count = vec_to_add.len();
        proof {
            assert(vec_to_add.deep_view().len() == vec_to_add@.len());
            assert(next_count == combine(padded).len());
        }
        startpoint = working_vec.len();
        append_hashes(&mut working_vec, &mut vec_to_add);
        working_node_total = working_vec.len();
        proof {
            prefix = prefix + padded;
            assert(working_vec.deep_view() =~= prefix + combine(padded));
        }

        let span: u8 = if next_count / 2 == 1 {
            (next_count + 1) as u8
        } else {
            next_count as u8
        };
        steps.push(span);

        proof {
            let next = combine(padded);
            assert(steps_of(lvl) == seq![span as int] + if next.len() <= 1 {
                Seq::<int>::empty()
            } else {
                steps_of(next)
            });
            assert(steps@.map_values(|v: u8| v as int) =~= steps@.map_values(|v: u8| v as int)
                .subrange(0, steps@.len() - 1).push(span as int));
            assert(steps@.map_values(|v: u8| v as int).subrange(0, steps@.len() - 1) + steps_of(
                lvl,
            ) == steps_of(pl));
        }

        if next_count == 1 {
            let hashroot = working_vec[working_vec.len() - 1].clone();
            proof {
                let next = combine(padded);
                assert(tail_of(lvl) == (if lvl.len() % 2 == 1 {
                    seq![lvl.last()]
                } else {
                    Seq::<Seq<char>>::empty()
                }) + next);
                assert(working_vec.deep_view() =~= full_nodes(pl));
                assert(steps@.map_values(|v: u8| v as int) + Seq::<int>::empty() =~= steps@
                    .map_values(|v: u8| v as int));
                assert(steps@.map_values(|v: u8| v as int) =~= steps_of(pl));
                lemma_tail_of_last(pl);
                assert(working_vec.deep_view().last() == full_nodes(pl).last());
                assert(hashroot@ == working_vec.deep_view().last());
                assert(working_vec.deep_view().take(initial_length as int) =~= pl);
                assert(pl.len() % 2 == 0);
            }
            let tree = MerkleTree {
                length: initial_length as u8,
                hash_tree: working_vec,
                hashroot,
                steps,
            };
            proof {
                assert(tree.leaves() == pl);
            }
            return Ok(Some(tree));
        }
        proof {
            let next = combine(padded);
            assert(tail_of(lvl) == (if lvl.len() % 2 == 1 {
                seq![lvl.last()]
            } else {
                Seq::<Seq<char>>::empty()
            }) + next + tail_of(next));
            assert(working_vec.deep_view() + tail_of(next) =~= full_nodes(pl));
            assert(steps@.map_values(|v: u8| v as int) + steps_of(next) =~= steps_of(pl));
            lvl = next;
        }
    }
}

impl MerkleTree {
    /// The root hash.
    pub fn root(&self) -> (r: &String)
        ensures
            r@ == spec_root(self.leaves()),
            r@ == full_nodes(self.leaves()).last(),
    {
        proof {
            use_type_invariant(self);
            lemma_tail_of_last(self.leaves());
        }
        &self.hashroot
    }

    /// The flat buffer of every level, leaves first and root last.
    pub fn nodes(&self) -> (r: &Vec<String>)
        ensures
            r.deep_view() == full_nodes(self.leaves()),
    {
        proof {
            use_type_invariant(self);
        }
        &self.hash_tree
    }

    /// The recorded per-transition index spans.
    pub fn step_table(&self) -> (r: &Vec<u8>)
        ensures
            r@.map_values(|v: u8| v as int) == steps_of(self.leaves()),
    {
        proof {
            use_type_invariant(self);
        }
        &self.steps
    }

    /// The padded leaf count.
    pub fn padded_leaf_count(&self) -> (r: u8)
        ensures
            r as int == self.leaves().len(),
            2 <= r && r as int % 2 == 0,
    {
        proof {
            use_type_invariant(self);
        }
        self.length
    }
}

/// The shared traversal: walks the flat buffer from a matching entry up to
/// the root, window by window, collecting the canonical path.
pub(crate) fn hash_proof_walk(test: String, tree: &MerkleTree) -> (r: Option<Vec<String>>)
    ensures
        r.deep_view() == spec_get_proof(tree.leaves(), test@),
{
    proof {
        use_type_invariant(tree);
        assert(tree.leaves().len() == tree.leaf_count());
        lemma_steps_of_bounds(tree.leaves());
        lemma_tail_of_last(tree.leaves());
        assert(tree.root_model() == spec_root(tree.leaves()));
    }
    let mut end_point: usize = tree.length as usize;
    let mut hunted: String = test;
    let mut startpoint: usize = 0;
    let mut step_number: usize = 0;
    let mut chain: Vec<String> = Vec::new();
    let mut index: usize = 0;
    proof {
        assert(chain.deep_view() =~= Seq::<Seq<char>>::empty());
    }
    while startpoint + index < end_point
        invariant
            tree.nodes_model() == full_nodes(tree.leaves()),
            tree.steps_model() == steps_of(tree.leaves()),
            tree.root_model() == tree.nodes_model().last(),
            2 <= tree.leaf_count() <= 254,
            tree.steps_model().len() <= 254,
            forall|j: int|
                0 <= j < tree.steps_model().len() ==> 1 <= #[trigger] tree.steps_model()[j] <= 128,
            step_number <= tree.steps_model().len(),
            startpoint <= end_point,
            index <= end_point,
            end_point as int <= 255 + 255 * (step_number as int),
            scan(
                tree.nodes_model(),
                tree.root_model(),
                tree.steps_model(),
                startpoint as int,
                end_point as int,
                index as int,
                step_number as int,
                hunted@,
                chain.deep_view(),
            ) == spec_get_proof(tree.leaves(), test@),
        decreases tree.steps_model().len() - step_number, end_point - startpoint - index,
    {
        if hunted == tree.hashroot {
            push_hash(&mut chain, hunted);
            return Some(chain);
        }
        if startpoint + index >= tree.hash_tree.len() {
            return None;
        }
        if tree.hash_tree[startpoint + index] == hunted {
            proof {
                assert(tree.nodes_model()[startpoint + index] == hunted@);
            }
            push_hash(&mut chain, hunted);
            if step_number >= tree.steps.len() {
                return None;
            }
            if index % 2 == 1 {
                let cat = tree.hash_tree[startpoint + index - 1].clone().concat(
                    tree.hash_tree[startpoint + index].as_str(),
                );
                hunted = digest_str(cat.as_str());
                proof {
                    assert(hunted@ == hash2(
                        tree.nodes_model()[startpoint + index - 1],
                        tree.nodes_model()[startpoint + index],
                    ));
                }
            } else {
                if startpoint + index + 1 >= tree.hash_tree.len() {
                    return None;
                }
                let cat = tree.hash_tree[startpoint + index].clone().concat(
                    tree.hash_tree[startpoint + index + 1].as_str(),
                );
                hunted = digest_str(cat.as_str());
                proof {
                    assert(hunted@ == hash2(
                        tree.nodes_model()[startpoint + index],
                        tree.nodes_model()[startpoint + index + 1],
                    ));
                }
            }
            let span = tree.steps[step_number];
            proof {
                assert(tree.steps_model()[step_number as int] == span as int);
            }
            startpoint = end_point;
            end_point = end_point + (span as usize);
            step_number = step_number + 1;
            index = 0;
        } else {
            index = index + 1;
        }
    }
    None
}

/// Returns the canonical proof path for `test` on the committed tree: the
/// ordered hashes from the matching leaf up to and including the root, or
/// not-found when the scan exhausts without a match.
pub fn get_hash_proof(test: String, merkle_tree: MerkleTree) -> (r: Option<Vec<String>>)
    ensures
        r.deep_view() == spec_get_proof(merkle_tree.leaves(), test@),
{
    hash_proof_walk(test, &merkle_tree)
}

/// Same traversal as the proof generator, but only reports whether the
/// hunted value ever reaches the root.
pub fn check_hash_value(test_address: String, merkle_tree: &MerkleTree) -> (r: bool)
    ensures
        r == (spec_get_proof(merkle_tree.leaves(), test_address@) matches Some(_)),
{
    let walk = hash_proof_walk(test_address, merkle_tree);
    match walk {
        Some(_) => true,
        None => false,
    }
}

} // verus!
