//! Alignment of two sequences of keys.

use similar::{capture_diff_slices, Algorithm, DiffOp};
use std::collections::HashMap;
use vstd::prelude::*;

use super::side::Key;
#[allow(unused_imports)]
use super::side::{key_models, KeyModel};

verus! {

// ---------------------------------------------------------------------------
// Numbers for keys
// ---------------------------------------------------------------------------

/// The first place at or after `i` with the key `x`.
pub open spec fn first_from(keys: Seq<KeyModel>, x: KeyModel, i: int) -> int
    decreases keys.len() - i,
{
    if i < 0 || i >= keys.len() || keys[i] == x {
        i
    } else {
        first_from(keys, x, i + 1)
    }
}

/// Each key as the number of the place where it first occurs, so that two
/// rows have the same number where they have the same key.
pub open spec fn numbers(keys: Seq<KeyModel>) -> Seq<u128> {
    Seq::new(keys.len(), |k: int| first_from(keys, keys[k], 0) as u128)
}

/// The numbers of the left keys, where the right ones follow them.
pub open spec fn left_numbers(left: Seq<KeyModel>, right: Seq<KeyModel>) -> Seq<u128> {
    numbers(left + right).take(left.len() as int)
}

/// The numbers of the right keys.
pub open spec fn right_numbers(left: Seq<KeyModel>, right: Seq<KeyModel>) -> Seq<u128> {
    numbers(left + right).skip(left.len() as int)
}

proof fn lemma_first_from(keys: Seq<KeyModel>, k: int, i: int)
    requires
        0 <= i <= k < keys.len(),
    ensures
        i <= first_from(keys, keys[k], i) <= k,
        keys[first_from(keys, keys[k], i)] == keys[k],
        forall|m: int| i <= m < first_from(keys, keys[k], i) ==> keys[m] != keys[k],
    decreases k - i,
{
    if keys[i] != keys[k] {
        lemma_first_from(keys, k, i + 1);
    }
}

/// Two rows have the same number exactly where they have the same key.
pub proof fn law_numbers_tell_keys_apart(keys: Seq<KeyModel>, a: int, b: int)
    requires
        0 <= a < keys.len() <= u128::MAX,
        0 <= b < keys.len(),
    ensures
        numbers(keys)[a] == numbers(keys)[b] <==> keys[a] == keys[b],
{
    lemma_first_from(keys, a, 0);
    lemma_first_from(keys, b, 0);
}

spec fn mixed(h: u64, x: u64) -> u64 {
    ((h as int * 31 + x) % 0x1_0000_0000_0000) as u64
}

fn mix(h: u64, x: u64) -> (out: u64)
    requires
        h < 0x1_0000_0000_0000,
        x < 0x1_0000_0000_0000,
    ensures
        out == mixed(h, x),
        out < 0x1_0000_0000_0000,
{
    (h * 31 + x) % 0x1_0000_0000_0000
}

spec fn text_hash(s: Seq<char>, n: int, seed: u64) -> u64
    decreases n,
{
    if n <= 0 {
        seed
    } else {
        mixed(text_hash(s, n - 1, seed), s[n - 1] as u32 as u64)
    }
}

fn hash_text(s: &String, seed: u64) -> (h: u64)
    requires
        seed < 0x1_0000_0000_0000,
    ensures
        h == text_hash(s@, s@.len() as int, seed),
        h < 0x1_0000_0000_0000,
{
    let mut h: u64 = seed;
    for c in it: s.as_str().chars()
        invariant
            it.seq() == s@,
            h == text_hash(s@, it.index(), seed),
            h < 0x1_0000_0000_0000,
    {
        h = mix(h, c as u32 as u64);
    }
    h
}

spec fn inputs_hash(v: Seq<(bool, u32)>, n: int, seed: u64) -> u64
    decreases n,
{
    if n <= 0 {
        seed
    } else {
        mixed(
            mixed(
                inputs_hash(v, n - 1, seed),
                if v[n - 1].0 {
                    1
                } else {
                    0
                },
            ),
            v[n - 1].1 as u64,
        )
    }
}

fn hash_inputs(v: &Vec<(bool, u32)>, seed: u64) -> (h: u64)
    requires
        seed < 0x1_0000_0000_0000,
    ensures
        h == inputs_hash(v@, v@.len() as int, seed),
        h < 0x1_0000_0000_0000,
{
    let mut h: u64 = seed;
    let mut k: usize = 0;
    while k < v.len()
        invariant
            k <= v@.len(),
            h == inputs_hash(v@, k as int, seed),
            h < 0x1_0000_0000_0000,
        decreases v.len() - k,
    {
        let flag: u64 = if v[k].0 {
            1
        } else {
            0
        };
        h = mix(mix(h, flag), v[k].1 as u64);
        k += 1;
    }
    h
}

spec fn key_hash(key: KeyModel) -> u64 {
    match key {
        KeyModel::Banner => 0,
        KeyModel::Header(b) => mixed(1, b as u64),
        KeyModel::Node(n) => mixed(2, n as u64),
        KeyModel::Structure(opcode, inputs) => inputs_hash(
            inputs,
            inputs.len() as int,
            text_hash(opcode, opcode.len() as int, 3),
        ),
        KeyModel::Text(t) => text_hash(t, t.len() as int, 4),
    }
}

fn hash_key(key: &Key) -> (h: u64)
    ensures
        h == key_hash(key@),
{
    match key {
        Key::Banner => 0,
        Key::Header(b) => mix(1, *b as u64),
        Key::Node(n) => mix(2, *n as u64),
        Key::Structure(opcode, inputs) => hash_inputs(inputs, hash_text(opcode, 3)),
        Key::Text(t) => hash_text(t, 4),
    }
}

fn same_inputs(a: &Vec<(bool, u32)>, b: &Vec<(bool, u32)>) -> (yes: bool)
    ensures
        yes == (a@ == b@),
{
    if a.len() != b.len() {
        return false;
    }
    let mut k: usize = 0;
    while k < a.len()
        invariant
            k <= a@.len(),
            a@.len() == b@.len(),
            forall|m: int| 0 <= m < k ==> a@[m] == b@[m],
        decreases a.len() - k,
    {
        if a[k].0 != b[k].0 || a[k].1 != b[k].1 {
            return false;
        }
        k += 1;
    }
    assert(a@ =~= b@);
    true
}

fn same_key(a: &Key, b: &Key) -> (yes: bool)
    ensures
        yes == (a@ == b@),
{
    match (a, b) {
        (Key::Banner, Key::Banner) => true,
        (Key::Header(x), Key::Header(y)) => *x == *y,
        (Key::Node(x), Key::Node(y)) => *x == *y,
        (Key::Structure(x, p), Key::Structure(y, q)) => *x == *y && same_inputs(p, q),
        (Key::Text(x), Key::Text(y)) => *x == *y,
        _ => false,
    }
}

fn pick<'a>(left: &'a Vec<Key>, right: &'a Vec<Key>, k: u128) -> (key: &'a Key)
    requires
        k < left@.len() + right@.len(),
    ensures
        key@ == (key_models(left@) + key_models(right@))[k as int],
{
    let n: u128 = left.len() as u128;
    if k < n {
        &left[k as usize]
    } else {
        assert(right@.len() == right.len());
        &right[(k - n) as usize]
    }
}

/// The places below `n` where a key first occurs, by the hash of the key.
spec fn indexed(keys: Seq<KeyModel>, n: int, table: Map<u64, Vec<u128>>) -> bool {
    &&& forall|k: int|
        0 <= k < n ==> table.dom().contains(key_hash(#[trigger] keys[k]))
            && table[key_hash(keys[k])]@.contains(first_from(keys, keys[k], 0) as u128)
    &&& forall|h: u64, m: int|
        table.dom().contains(h) && 0 <= m < table[h]@.len() ==> (#[trigger] table[h]@[m]) < n
            && first_from(keys, keys[table[h]@[m] as int], 0) == table[h]@[m]
}

fn find_place(
    left: &Vec<Key>,
    right: &Vec<Key>,
    n: u128,
    bucket: &Vec<u128>,
) -> (at: Option<u128>)
    requires
        n < left@.len() + right@.len(),
        forall|m: int| 0 <= m < bucket@.len() ==> (#[trigger] bucket@[m]) < n,
    ensures
        ({
            let keys = key_models(left@) + key_models(right@);
            match at {
                Some(p) => bucket@.contains(p) && p < n && keys[p as int] == keys[n as int],
                None => forall|m: int|
                    0 <= m < bucket@.len() ==> keys[(#[trigger] bucket@[m]) as int]
                        != keys[n as int],
            }
        }),
{
    let key = pick(left, right, n);
    let mut m: usize = 0;
    while m < bucket.len()
        invariant
            m <= bucket@.len(),
            n < left@.len() + right@.len(),
            key@ == (key_models(left@) + key_models(right@))[n as int],
            forall|j: int| 0 <= j < bucket@.len() ==> (#[trigger] bucket@[j]) < n,
            forall|j: int|
                0 <= j < m ==> (key_models(left@) + key_models(right@))[(
                #[trigger] bucket@[j]) as int] != key@,
        decreases bucket.len() - m,
    {
        let p: u128 = bucket[m];
        if same_key(pick(left, right, p), key) {
            return Some(p);
        }
        m += 1;
    }
    None
}

/// Numbers the keys of both sides.
pub fn number_keys(left: &Vec<Key>, right: &Vec<Key>) -> (out: (Vec<u128>, Vec<u128>))
    ensures
        out.0@ == left_numbers(key_models(left@), key_models(right@)),
        out.1@ == right_numbers(key_models(left@), key_models(right@)),
{
    broadcast use vstd::std_specs::hash::group_hash_axioms;

    let ghost keys = key_models(left@) + key_models(right@);
    let total: u128 = left.len() as u128 + right.len() as u128;
    let mut table: HashMap<u64, Vec<u128>> = HashMap::new();
    let mut a: Vec<u128> = Vec::new();
    let mut b: Vec<u128> = Vec::new();
    let mut n: u128 = 0;
    while n < total
        invariant
            n <= total,
            total == left@.len() + right@.len(),
            keys == key_models(left@) + key_models(right@),
            keys.len() == total,
            indexed(keys, n as int, table@),
            n <= left@.len() ==> a@ == numbers(keys).take(n as int) && b@.len() == 0,
            n >= left@.len() ==> a@ == numbers(keys).take(left@.len() as int) && b@ == numbers(
                keys,
            ).subrange(left@.len() as int, n as int),
        decreases total - n,
    {
        let h: u64 = hash_key(pick(left, right, n));
        let mut bucket: Vec<u128> = match table.remove(&h) {
            Some(v) => v,
            None => Vec::new(),
        };
        let ghost old_table = table@;
        let ghost old_bucket = bucket@;
        let found = find_place(left, right, n, &bucket);
        proof {
            lemma_first_from(keys, n as int, 0);
        }
        let number: u128 = match found {
            Some(p) => p,
            None => {
                bucket.push(n);
                n
            },
        };
        proof {
            let first = first_from(keys, keys[n as int], 0);
            if found is None {
                if first < n {
                    assert(keys[first] == keys[n as int]);
                    assert(key_hash(keys[first]) == h);
                    assert(old_bucket.contains(first as u128));
                    let m = choose|m: int|
                        0 <= m < old_bucket.len() && old_bucket[m] == first as u128;
                    assert(old_bucket[m] == first as u128);
                    assert(false);
                }
                assert(first == n);
            } else {
                let p = found->0;
                let m = choose|m: int| 0 <= m < old_bucket.len() && old_bucket[m] == p;
                assert(first_from(keys, keys[old_bucket[m] as int], 0) == old_bucket[m]);
                assert(first == p);
            }
            assert(number == first);
        }
        let ghost new_bucket = bucket@;
        table.insert(h, bucket);
        proof {
            assert(new_bucket.contains(number)) by {
                if found is None {
                    assert(new_bucket[new_bucket.len() - 1] == n);
                }
            }
            assert forall|k: int| 0 <= k < n + 1 implies table@.dom().contains(
                key_hash(#[trigger] keys[k]),
            ) && table@[key_hash(keys[k])]@.contains(first_from(keys, keys[k], 0) as u128) by {
                let g = key_hash(keys[k]);
                if k < n {
                    let f = first_from(keys, keys[k], 0) as u128;
                    if g == h {
                        assert(old_bucket.contains(f));
                        let m = choose|m: int| 0 <= m < old_bucket.len() && old_bucket[m] == f;
                        assert(new_bucket[m] == f);
                    }
                }
            }
            assert(indexed(keys, n + 1, table@));
        }
        if n < left.len() as u128 {
            a.push(number);
            assert(a@ =~= numbers(keys).take(n + 1));
        } else {
            b.push(number);
            assert(b@ =~= numbers(keys).subrange(left@.len() as int, n + 1));
        }
        n += 1;
    }
    assert(numbers(keys).subrange(left@.len() as int, total as int) =~= numbers(keys).skip(
        left@.len() as int,
    ));
    assert(b@ =~= numbers(keys).skip(left@.len() as int));
    (a, b)
}

// ---------------------------------------------------------------------------
// Alignment
// ---------------------------------------------------------------------------

/// One step of an alignment.
#[derive(Debug, Clone, Copy, PartialEq, Eq, Structural)]
pub enum Step {
    /// `len` elements are the same, from `old` and from `new` on.
    Equal { old: usize, new: usize, len: usize },
    /// `len` elements from `old` on are gone.
    Delete { old: usize, len: usize },
    /// `len` elements from `new` on are new.
    Insert { new: usize, len: usize },
    /// Elements are gone and others stand in their place.
    Replace { old: usize, old_len: usize, new: usize, new_len: usize },
}

/// The steps that the alignment of `old` with `new` takes.
pub uninterp spec fn myers_steps(old: Seq<u128>, new: Seq<u128>) -> Seq<Step>;

/// The steps from `i` on lead in order through all of `old` from `a` on and
/// all of `new` from `b` on, and equal elements are equal.
pub open spec fn leads_through(
    steps: Seq<Step>,
    i: int,
    old: Seq<u128>,
    a: int,
    new: Seq<u128>,
    b: int,
) -> bool
    decreases steps.len() - i,
{
    if i < 0 || i >= steps.len() {
        a == old.len() && b == new.len()
    } else {
        match steps[i] {
            Step::Equal { old: o, new: n, len } => {
                &&& o == a && n == b
                &&& a + len <= old.len() && b + len <= new.len()
                &&& old.subrange(a, a + len) == new.subrange(b, b + len)
                &&& leads_through(steps, i + 1, old, a + len, new, b + len)
            },
            Step::Delete { old: o, len } => {
                &&& o == a && a + len <= old.len()
                &&& leads_through(steps, i + 1, old, a + len, new, b)
            },
            Step::Insert { new: n, len } => {
                &&& n == b && b + len <= new.len()
                &&& leads_through(steps, i + 1, old, a, new, b + len)
            },
            Step::Replace { old: o, old_len, new: n, new_len } => {
                &&& o == a && n == b
                &&& a + old_len <= old.len() && b + new_len <= new.len()
                &&& leads_through(steps, i + 1, old, a + old_len, new, b + new_len)
            },
        }
    }
}

/// The steps between two equal sequences of `n` elements: one equal step, or
/// none where there is nothing to align.
pub open spec fn unchanged(n: nat) -> Seq<Step> {
    if n == 0 {
        Seq::empty()
    } else {
        seq![Step::Equal { old: 0, new: 0, len: n as usize }]
    }
}

/// Aligns two sequences with `similar::capture_diff_slices` and Myers'
/// algorithm.
///
/// Claimed of it: the steps depend on the two sequences alone. They lead in
/// order through all of both, each element in exactly one step, and the
/// elements of an equal step are equal. Two equal sequences take one equal
/// step, or none where they are empty. Which of several alignments it picks
/// otherwise is left to the name.
#[verifier::external_body]
fn align(old: &[u128], new: &[u128]) -> (steps: Vec<Step>)
    ensures
        steps@ == myers_steps(old@, new@),
        leads_through(steps@, 0, old@, 0, new@, 0),
        old@ == new@ ==> steps@ == unchanged(old@.len()),
{
    capture_diff_slices(Algorithm::Myers, old, new).into_iter().map(|op| match op {
        DiffOp::Equal { old_index: old, new_index: new, len } => Step::Equal { old, new, len },
        DiffOp::Delete { old_index: old, old_len: len, .. } => Step::Delete { old, len },
        DiffOp::Insert { new_index: new, new_len: len, .. } => Step::Insert { new, len },
        DiffOp::Replace { old_index: old, old_len, new_index: new, new_len } => {
            Step::Replace { old, old_len, new, new_len }
        },
    }).collect()
}

/// The steps that align two sequences of keys.
pub open spec fn key_steps(left: Seq<KeyModel>, right: Seq<KeyModel>) -> Seq<Step> {
    myers_steps(left_numbers(left, right), right_numbers(left, right))
}

/// Aligns two sequences of keys.
pub fn align_keys(left: &Vec<Key>, right: &Vec<Key>) -> (steps: Vec<Step>)
    ensures
        steps@ == key_steps(key_models(left@), key_models(right@)),
        leads_through(
            steps@,
            0,
            left_numbers(key_models(left@), key_models(right@)),
            0,
            right_numbers(key_models(left@), key_models(right@)),
            0,
        ),
        key_models(left@) == key_models(right@) ==> steps@ == unchanged(left@.len()),
{
    proof {
        let keys = key_models(left@);
        if keys == key_models(right@) {
            assert(left_numbers(keys, keys) =~= right_numbers(keys, keys));
        }
    }
    let (a, b) = number_keys(left, right);
    align(a.as_slice(), b.as_slice())
}

} // verus!
