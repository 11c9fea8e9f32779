//! The compact six-field representation of a block's state changes, together with
//! the operations the synchronization pipeline performs on it: measuring its
//! length, detecting overlap between two partial diffs, merging partial diffs,
//! and splitting a diff into single-field parts.
//!
//! Contracts speak of each field as a sequence of entries; a well-formed diff
//! holds at most one entry per key, mirroring the map representation it stands
//! for, in insertion order.

use vstd::prelude::*;

verus! {

/// The keys of an association list.
pub open spec fn assoc_keys<T>(s: Seq<(u64, T)>) -> Seq<u64> {
    s.map_values(|p: (u64, T)| p.0)
}

/// No value occurs twice.
pub open spec fn seq_unique(s: Seq<u64>) -> bool {
    forall|i: int, j: int| 0 <= i < j < s.len() ==> s[i] != s[j]
}

/// No value occurs in both sequences.
pub open spec fn seqs_disjoint(a: Seq<u64>, b: Seq<u64>) -> bool {
    forall|i: int, j: int| 0 <= i < a.len() && 0 <= j < b.len() ==> a[i] != b[j]
}

/// The total number of storage entries, summed over all contracts.
pub open spec fn storage_entries_len(s: Seq<(u64, Vec<(u64, u64)>)>) -> nat
    decreases s.len(),
{
    if s.len() == 0 {
        0
    } else {
        storage_entries_len(s.drop_last()) + s.last().1@.len()
    }
}

/// A block's state changes: the six-field thin representation.
///
/// Keys and values are the words the synchronization logic reads of contract
/// addresses, class hashes, storage keys and field elements.
#[derive(Debug, Clone, PartialEq, Eq)]
pub struct ThinStateDiff {
    /// Contract address to the hash of the class deployed at it.
    pub deployed_contracts: Vec<(u64, u64)>,
    /// Contract address to that contract's changed storage cells.
    pub storage_diffs: Vec<(u64, Vec<(u64, u64)>)>,
    /// Class hash to compiled class hash.
    pub declared_classes: Vec<(u64, u64)>,
    /// Hashes of newly declared deprecated classes.
    pub deprecated_declared_classes: Vec<u64>,
    /// Contract address to its new nonce.
    pub nonces: Vec<(u64, u64)>,
    /// Contract address to the hash of the class that replaced its class.
    pub replaced_classes: Vec<(u64, u64)>,
}

impl ThinStateDiff {
    /// The diff's length: the sum of entry counts across the six fields, where a
    /// contract's storage counts one per changed cell.
    pub open spec fn spec_len(self) -> nat {
        self.deployed_contracts@.len() + storage_entries_len(self.storage_diffs@)
            + self.declared_classes@.len() + self.deprecated_declared_classes@.len()
            + self.nonces@.len() + self.replaced_classes@.len()
    }

    /// Each keyed field holds at most one entry per key, and the length fits a
    /// machine word. Deprecated class hashes form a plain list and may repeat.
    pub open spec fn wf(self) -> bool {
        &&& seq_unique(assoc_keys(self.deployed_contracts@))
        &&& seq_unique(assoc_keys(self.storage_diffs@))
        &&& (forall|i: int|
            0 <= i < self.storage_diffs@.len() ==> seq_unique(
                assoc_keys(#[trigger] self.storage_diffs@[i].1@),
            ))
        &&& seq_unique(assoc_keys(self.declared_classes@))
        &&& seq_unique(assoc_keys(self.nonces@))
        &&& seq_unique(assoc_keys(self.replaced_classes@))
        &&& self.spec_len() <= u64::MAX
    }

    /// Two partial diffs overlap when any key — contract, class or deprecated
    /// class hash — appears in the same field of both, regardless of values.
    pub open spec fn conflicts(self, other: ThinStateDiff) -> bool {
        ||| !seqs_disjoint(
            assoc_keys(self.deployed_contracts@),
            assoc_keys(other.deployed_contracts@),
        )
        ||| !seqs_disjoint(assoc_keys(self.storage_diffs@), assoc_keys(other.storage_diffs@))
        ||| !seqs_disjoint(assoc_keys(self.declared_classes@), assoc_keys(other.declared_classes@))
        ||| !seqs_disjoint(self.deprecated_declared_classes@, other.deprecated_declared_classes@)
        ||| !seqs_disjoint(assoc_keys(self.nonces@), assoc_keys(other.nonces@))
        ||| !seqs_disjoint(assoc_keys(self.replaced_classes@), assoc_keys(other.replaced_classes@))
    }

    /// A diff with no entries at all.
    pub fn empty() -> (r: ThinStateDiff)
        ensures
            r.deployed_contracts@ == Seq::<(u64, u64)>::empty(),
            r.storage_diffs@ == Seq::<(u64, Vec<(u64, u64)>)>::empty(),
            r.declared_classes@ == Seq::<(u64, u64)>::empty(),
            r.deprecated_declared_classes@ == Seq::<u64>::empty(),
            r.nonces@ == Seq::<(u64, u64)>::empty(),
            r.replaced_classes@ == Seq::<(u64, u64)>::empty(),
            r.spec_len() == 0,
            r.wf(),
    {
        let r = ThinStateDiff {
            deployed_contracts: Vec::new(),
            storage_diffs: Vec::new(),
            declared_classes: Vec::new(),
            deprecated_declared_classes: Vec::new(),
            nonces: Vec::new(),
            replaced_classes: Vec::new(),
        };
        proof {
            assert(r.deployed_contracts@ =~= Seq::<(u64, u64)>::empty());
            assert(r.storage_diffs@ =~= Seq::<(u64, Vec<(u64, u64)>)>::empty());
            assert(r.declared_classes@ =~= Seq::<(u64, u64)>::empty());
            assert(r.deprecated_declared_classes@ =~= Seq::<u64>::empty());
            assert(r.nonces@ =~= Seq::<(u64, u64)>::empty());
            assert(r.replaced_classes@ =~= Seq::<(u64, u64)>::empty());
        }
        r
    }

    /// The diff's length as a machine word, when it fits.
    pub fn try_len(&self) -> (r: Option<u64>)
        ensures
            match r {
                Some(l) => l == self.spec_len(),
                None => self.spec_len() > u64::MAX,
            },
    {
        let storage: u64 = match storage_len_checked(&self.storage_diffs) {
            Some(l) => l,
            None => {
                return None;
            },
        };
        let mut total: u64 = storage;
        total = match total.checked_add(self.deployed_contracts.len() as u64) {
            Some(t) => t,
            None => {
                return None;
            },
        };
        total = match total.checked_add(self.declared_classes.len() as u64) {
            Some(t) => t,
            None => {
                return None;
            },
        };
        total = match total.checked_add(self.deprecated_declared_classes.len() as u64) {
            Some(t) => t,
            None => {
                return None;
            },
        };
        total = match total.checked_add(self.nonces.len() as u64) {
            Some(t) => t,
            None => {
                return None;
            },
        };
        total = match total.checked_add(self.replaced_classes.len() as u64) {
            Some(t) => t,
            None => {
                return None;
            },
        };
        Some(total)
    }

    /// The diff's length, under the representation bound.
    pub fn len(&self) -> (r: u64)
        requires
            self.spec_len() <= u64::MAX,
        ensures
            r == self.spec_len(),
    {
        match self.try_len() {
            Some(l) => l,
            None => {
                proof {
                    assert(false);
                }
                0
            },
        }
    }


    /// Checks well-formedness: each keyed field holds each key at most once,
    /// and the length fits a machine word.
    pub fn is_well_formed(&self) -> (r: bool)
        ensures
            r == self.wf(),
    {
        if !assoc_keys_unique(&self.deployed_contracts) {
            return false;
        }
        if !assoc_keys_unique(&self.storage_diffs) {
            return false;
        }
        let mut i: usize = 0;
        while i < self.storage_diffs.len()
            invariant
                i <= self.storage_diffs@.len(),
                forall|j: int|
                    0 <= j < i ==> seq_unique(assoc_keys(#[trigger] self.storage_diffs@[j].1@)),
            decreases self.storage_diffs@.len() - i,
        {
            if !assoc_keys_unique(&self.storage_diffs[i].1) {
                return false;
            }
            i = i + 1;
        }
        if !assoc_keys_unique(&self.declared_classes) {
            return false;
        }
        if !assoc_keys_unique(&self.nonces) {
            return false;
        }
        if !assoc_keys_unique(&self.replaced_classes) {
            return false;
        }
        match self.try_len() {
            Some(_) => true,
            None => false,
        }
    }

    /// Whether this diff overlaps the other on any of the six fields.
    pub fn conflicts_with(&self, other: &ThinStateDiff) -> (r: bool)
        ensures
            r == self.conflicts(*other),
    {
        if !assoc_keys_disjoint(&self.deployed_contracts, &other.deployed_contracts) {
            return true;
        }
        if !assoc_keys_disjoint(&self.storage_diffs, &other.storage_diffs) {
            return true;
        }
        if !assoc_keys_disjoint(&self.declared_classes, &other.declared_classes) {
            return true;
        }
        if !u64s_disjoint(&self.deprecated_declared_classes, &other.deprecated_declared_classes) {
            return true;
        }
        if !assoc_keys_disjoint(&self.nonces, &other.nonces) {
            return true;
        }
        if !assoc_keys_disjoint(&self.replaced_classes, &other.replaced_classes) {
            return true;
        }
        false
    }

    /// Appends the entries of a non-overlapping part to this diff, field by field.
    pub fn merge_part(&mut self, part: ThinStateDiff)
        requires
            old(self).wf(),
            part.wf(),
            !old(self).conflicts(part),
            old(self).spec_len() + part.spec_len() <= u64::MAX,
        ensures
            final(self).deployed_contracts@ == old(self).deployed_contracts@
                + part.deployed_contracts@,
            final(self).storage_diffs@ == old(self).storage_diffs@ + part.storage_diffs@,
            final(self).declared_classes@ == old(self).declared_classes@
                + part.declared_classes@,
            final(self).deprecated_declared_classes@ == old(self).deprecated_declared_classes@
                + part.deprecated_declared_classes@,
            final(self).nonces@ == old(self).nonces@ + part.nonces@,
            final(self).replaced_classes@ == old(self).replaced_classes@ + part.replaced_classes@,
            final(self).spec_len() == old(self).spec_len() + part.spec_len(),
            final(self).wf(),
    {
        let ghost part0 = part;
        let mut part = part;
        self.deployed_contracts.append(&mut part.deployed_contracts);
        self.storage_diffs.append(&mut part.storage_diffs);
        self.declared_classes.append(&mut part.declared_classes);
        self.deprecated_declared_classes.append(&mut part.deprecated_declared_classes);
        self.nonces.append(&mut part.nonces);
        self.replaced_classes.append(&mut part.replaced_classes);
        proof {
            lemma_assoc_keys_concat(old(self).deployed_contracts@, part0.deployed_contracts@);
            lemma_assoc_keys_concat(old(self).storage_diffs@, part0.storage_diffs@);
            lemma_assoc_keys_concat(old(self).declared_classes@, part0.declared_classes@);
            lemma_assoc_keys_concat(old(self).nonces@, part0.nonces@);
            lemma_assoc_keys_concat(old(self).replaced_classes@, part0.replaced_classes@);
            lemma_unique_concat(
                assoc_keys(old(self).deployed_contracts@),
                assoc_keys(part0.deployed_contracts@),
            );
            lemma_unique_concat(
                assoc_keys(old(self).storage_diffs@),
                assoc_keys(part0.storage_diffs@),
            );
            lemma_unique_concat(
                assoc_keys(old(self).declared_classes@),
                assoc_keys(part0.declared_classes@),
            );
            lemma_unique_concat(assoc_keys(old(self).nonces@), assoc_keys(part0.nonces@));
            lemma_unique_concat(
                assoc_keys(old(self).replaced_classes@),
                assoc_keys(part0.replaced_classes@),
            );
            lemma_storage_entries_len_concat(old(self).storage_diffs@, part0.storage_diffs@);
            assert forall|i: int| 0 <= i < self.storage_diffs@.len() implies seq_unique(
                assoc_keys(#[trigger] self.storage_diffs@[i].1@),
            ) by {
                if i < old(self).storage_diffs@.len() {
                    assert(self.storage_diffs@[i] == old(self).storage_diffs@[i]);
                } else {
                    assert(self.storage_diffs@[i] == part0.storage_diffs@[i - old(
                        self,
                    ).storage_diffs@.len()]);
                }
            }
        }
    }
}

impl Default for ThinStateDiff {
    /// The default diff is the empty diff.
    fn default() -> (r: Self)
        ensures
            r.deployed_contracts@ == Seq::<(u64, u64)>::empty(),
            r.storage_diffs@ == Seq::<(u64, Vec<(u64, u64)>)>::empty(),
            r.declared_classes@ == Seq::<(u64, u64)>::empty(),
            r.deprecated_declared_classes@ == Seq::<u64>::empty(),
            r.nonces@ == Seq::<(u64, u64)>::empty(),
            r.replaced_classes@ == Seq::<(u64, u64)>::empty(),
            r.spec_len() == 0,
            r.wf(),
    {
        ThinStateDiff::empty()
    }
}


/// Whether an association list holds each key at most once.
pub fn assoc_keys_unique<T>(v: &Vec<(u64, T)>) -> (r: bool)
    ensures
        r == seq_unique(assoc_keys(v@)),
{
    let mut i: usize = 0;
    while i < v.len()
        invariant
            i <= v@.len(),
            forall|a: int, b: int| 0 <= a < b < i ==> assoc_keys(v@)[a] != assoc_keys(v@)[b],
        decreases v@.len() - i,
    {
        let mut j: usize = 0;
        while j < i
            invariant
                j <= i < v@.len(),
                forall|b: int| 0 <= b < j ==> assoc_keys(v@)[b] != assoc_keys(v@)[i as int],
            decreases i - j,
        {
            if v[j].0 == v[i].0 {
                proof {
                    assert(assoc_keys(v@)[j as int] == assoc_keys(v@)[i as int]);
                }
                return false;
            }
            j = j + 1;
        }
        i = i + 1;
    }
    true
}

/// Whether an association list holds the key.
pub fn assoc_contains_key<T>(v: &Vec<(u64, T)>, key: u64) -> (r: bool)
    ensures
        r == assoc_keys(v@).contains(key),
{
    let mut i: usize = 0;
    while i < v.len()
        invariant
            i <= v@.len(),
            forall|j: int| 0 <= j < i ==> v@[j].0 != key,
        decreases v@.len() - i,
    {
        if v[i].0 == key {
            proof {
                assert(assoc_keys(v@)[i as int] == key);
            }
            return true;
        }
        i = i + 1;
    }
    proof {
        assert forall|j: int| 0 <= j < assoc_keys(v@).len() implies assoc_keys(v@)[j]
            != key by {
            assert(assoc_keys(v@)[j] == v@[j].0);
        }
    }
    false
}

/// Whether two association lists share a key.
pub fn assoc_keys_disjoint<T, U>(a: &Vec<(u64, T)>, b: &Vec<(u64, U)>) -> (r: bool)
    ensures
        r == seqs_disjoint(assoc_keys(a@), assoc_keys(b@)),
{
    let mut i: usize = 0;
    while i < a.len()
        invariant
            i <= a@.len(),
            forall|x: int, y: int|
                0 <= x < i && 0 <= y < b@.len() ==> assoc_keys(a@)[x] != assoc_keys(b@)[y],
        decreases a@.len() - i,
    {
        if assoc_contains_key(b, a[i].0) {
            proof {
                let y = choose|y: int|
                    0 <= y < assoc_keys(b@).len() && assoc_keys(b@)[y] == a@[i as int].0;
                assert(assoc_keys(a@)[i as int] == assoc_keys(b@)[y]);
            }
            return false;
        }
        i = i + 1;
        proof {
            assert forall|x: int, y: int|
                0 <= x < i && 0 <= y < b@.len() implies assoc_keys(a@)[x] != assoc_keys(
                b@,
            )[y] by {
                assert(assoc_keys(b@)[y] == b@[y].0);
            }
        }
    }
    true
}

/// Whether a value occurs in the list.
pub fn u64s_contain(v: &Vec<u64>, x: u64) -> (r: bool)
    ensures
        r == v@.contains(x),
{
    let mut i: usize = 0;
    while i < v.len()
        invariant
            i <= v@.len(),
            forall|j: int| 0 <= j < i ==> v@[j] != x,
        decreases v@.len() - i,
    {
        if v[i] == x {
            return true;
        }
        i = i + 1;
    }
    false
}

/// Whether two lists share a value.
pub fn u64s_disjoint(a: &Vec<u64>, b: &Vec<u64>) -> (r: bool)
    ensures
        r == seqs_disjoint(a@, b@),
{
    let mut i: usize = 0;
    while i < a.len()
        invariant
            i <= a@.len(),
            forall|x: int, y: int| 0 <= x < i && 0 <= y < b@.len() ==> a@[x] != b@[y],
        decreases a@.len() - i,
    {
        if u64s_contain(b, a[i]) {
            return false;
        }
        i = i + 1;
    }
    true
}

/// The total storage entry count, when it fits a machine word.
fn storage_len_checked(s: &Vec<(u64, Vec<(u64, u64)>)>) -> (r: Option<u64>)
    ensures
        match r {
            Some(l) => l == storage_entries_len(s@),
            None => storage_entries_len(s@) > u64::MAX,
        },
{
    let mut total: u64 = 0;
    let mut i: usize = 0;
    while i < s.len()
        invariant
            i <= s@.len(),
            total == storage_entries_len(s@.subrange(0, i as int)),
        decreases s@.len() - i,
    {
        proof {
            assert(s@.subrange(0, i + 1).drop_last() =~= s@.subrange(0, i as int));
            assert(s@.subrange(0, i + 1).last() == s@[i as int]);
        }
        total = match total.checked_add(s[i].1.len() as u64) {
            Some(t) => t,
            None => {
                proof {
                    lemma_storage_entries_len_prefix(s@, i + 1);
                }
                return None;
            },
        };
        i = i + 1;
    }
    proof {
        assert(s@.subrange(0, s@.len() as int) =~= s@);
    }
    Some(total)
}

/// The six fields of a sequence of partial diffs, each concatenated in order.
pub open spec fn concat_parts(parts: Seq<ThinStateDiff>) -> (
    Seq<(u64, u64)>,
    Seq<(u64, Vec<(u64, u64)>)>,
    Seq<(u64, u64)>,
    Seq<u64>,
    Seq<(u64, u64)>,
    Seq<(u64, u64)>,
)
    decreases parts.len(),
{
    if parts.len() == 0 {
        (
            Seq::<(u64, u64)>::empty(),
            Seq::<(u64, Vec<(u64, u64)>)>::empty(),
            Seq::<(u64, u64)>::empty(),
            Seq::<u64>::empty(),
            Seq::<(u64, u64)>::empty(),
            Seq::<(u64, u64)>::empty(),
        )
    } else {
        let rest = concat_parts(parts.drop_last());
        let p = parts.last();
        (
            rest.0 + p.deployed_contracts@,
            rest.1 + p.storage_diffs@,
            rest.2 + p.declared_classes@,
            rest.3 + p.deprecated_declared_classes@,
            rest.4 + p.nonces@,
            rest.5 + p.replaced_classes@,
        )
    }
}

/// The diff is, field by field, the in-order concatenation of the parts.
pub open spec fn is_concat_of(diff: ThinStateDiff, parts: Seq<ThinStateDiff>) -> bool {
    let c = concat_parts(parts);
    &&& diff.deployed_contracts@ == c.0
    &&& diff.storage_diffs@ == c.1
    &&& diff.declared_classes@ == c.2
    &&& diff.deprecated_declared_classes@ == c.3
    &&& diff.nonces@ == c.4
    &&& diff.replaced_classes@ == c.5
}

/// The sum of the parts' lengths.
pub open spec fn sum_part_lengths(parts: Seq<ThinStateDiff>) -> nat
    decreases parts.len(),
{
    if parts.len() == 0 {
        0
    } else {
        sum_part_lengths(parts.drop_last()) + parts.last().spec_len()
    }
}

/// The running length after each part of a sequence, in order.
pub open spec fn boundary_lengths_of(parts: Seq<ThinStateDiff>) -> Seq<u128>
    decreases parts.len(),
{
    if parts.len() == 0 {
        Seq::empty()
    } else {
        boundary_lengths_of(parts.drop_last()).push(sum_part_lengths(parts) as u128)
    }
}

/// Appending a part extends each concatenated field by that part's field.
pub proof fn lemma_concat_parts_push(parts: Seq<ThinStateDiff>, p: ThinStateDiff)
    ensures
        concat_parts(parts.push(p)).0 == concat_parts(parts).0 + p.deployed_contracts@,
        concat_parts(parts.push(p)).1 == concat_parts(parts).1 + p.storage_diffs@,
        concat_parts(parts.push(p)).2 == concat_parts(parts).2 + p.declared_classes@,
        concat_parts(parts.push(p)).3 == concat_parts(parts).3 + p.deprecated_declared_classes@,
        concat_parts(parts.push(p)).4 == concat_parts(parts).4 + p.nonces@,
        concat_parts(parts.push(p)).5 == concat_parts(parts).5 + p.replaced_classes@,
        sum_part_lengths(parts.push(p)) == sum_part_lengths(parts) + p.spec_len(),
        boundary_lengths_of(parts.push(p)) == boundary_lengths_of(parts).push(
            sum_part_lengths(parts.push(p)) as u128,
        ),
{
    assert(parts.push(p).drop_last() =~= parts);
    assert(parts.push(p).last() == p);
}

/// Which of the six fields a single-field part carries: the index of its first
/// populated field, or -1 when the part is entirely empty.
pub open spec fn part_field(d: ThinStateDiff) -> int {
    if d.deployed_contracts@.len() > 0 {
        0
    } else if d.storage_diffs@.len() > 0 {
        1
    } else if d.declared_classes@.len() > 0 {
        2
    } else if d.deprecated_declared_classes@.len() > 0 {
        3
    } else if d.nonces@.len() > 0 {
        4
    } else if d.replaced_classes@.len() > 0 {
        5
    } else {
        -1
    }
}

/// The part holds entries in the field with index `k` and in no other field.
pub open spec fn single_field_part(d: ThinStateDiff, k: int) -> bool {
    &&& (d.deployed_contracts@.len() > 0 <==> k == 0)
    &&& (d.storage_diffs@.len() > 0 <==> k == 1)
    &&& (d.declared_classes@.len() > 0 <==> k == 2)
    &&& (d.deprecated_declared_classes@.len() > 0 <==> k == 3)
    &&& (d.nonces@.len() > 0 <==> k == 4)
    &&& (d.replaced_classes@.len() > 0 <==> k == 5)
}

/// Two single-field parts carrying different fields never overlap.
pub proof fn lemma_single_fields_no_conflict(a: ThinStateDiff, b: ThinStateDiff)
    requires
        single_field_part(a, part_field(a)),
        single_field_part(b, part_field(b)),
        part_field(a) != part_field(b),
    ensures
        !a.conflicts(b),
{
}

/// Appends a single-field part whose field follows all fields already pushed.
fn append_single_field_part(parts: &mut Vec<ThinStateDiff>, part: ThinStateDiff, Ghost(k): Ghost<
    int,
>)
    requires
        part.wf(),
        0 <= k <= 5,
        single_field_part(part, k),
        forall|i: int|
            0 <= i < old(parts)@.len() ==> single_field_part(
                #[trigger] old(parts)@[i],
                part_field(old(parts)@[i]),
            ) && (#[trigger] old(parts)@[i]).wf() && part_field(old(parts)@[i]) >= 0,
        forall|i: int| 0 <= i < old(parts)@.len() ==> part_field(#[trigger] old(parts)@[i]) < k,
        forall|i: int, j: int|
            0 <= i < j < old(parts)@.len() ==> part_field(old(parts)@[i]) < part_field(
                old(parts)@[j],
            ),
    ensures
        final(parts)@ == old(parts)@.push(part),
        forall|i: int|
            0 <= i < final(parts)@.len() ==> single_field_part(
                #[trigger] final(parts)@[i],
                part_field(final(parts)@[i]),
            ) && (#[trigger] final(parts)@[i]).wf() && part_field(final(parts)@[i]) >= 0,
        forall|i: int| 0 <= i < final(parts)@.len() ==> part_field(#[trigger] final(parts)@[i]) <= k,
        forall|i: int, j: int|
            0 <= i < j < final(parts)@.len() ==> part_field(final(parts)@[i]) < part_field(
                final(parts)@[j],
            ),
        concat_parts(final(parts)@).0 == concat_parts(old(parts)@).0 + part.deployed_contracts@,
        concat_parts(final(parts)@).1 == concat_parts(old(parts)@).1 + part.storage_diffs@,
        concat_parts(final(parts)@).2 == concat_parts(old(parts)@).2 + part.declared_classes@,
        concat_parts(final(parts)@).3 == concat_parts(old(parts)@).3
            + part.deprecated_declared_classes@,
        concat_parts(final(parts)@).4 == concat_parts(old(parts)@).4 + part.nonces@,
        concat_parts(final(parts)@).5 == concat_parts(old(parts)@).5 + part.replaced_classes@,
        sum_part_lengths(final(parts)@) == sum_part_lengths(old(parts)@) + part.spec_len(),
{
    proof {
        lemma_concat_parts_push(parts@, part);
        assert(part_field(part) == k);
    }
    parts.push(part);
}

/// Pushes the deployed contracts field as its own part, when populated.
fn push_deployed_part(parts: &mut Vec<ThinStateDiff>, field: Vec<(u64, u64)>)
    requires
        seq_unique(assoc_keys(field@)),
        field@.len() <= u64::MAX,
        forall|i: int|
            0 <= i < old(parts)@.len() ==> single_field_part(
                #[trigger] old(parts)@[i],
                part_field(old(parts)@[i]),
            ) && (#[trigger] old(parts)@[i]).wf() && part_field(old(parts)@[i]) >= 0,
        forall|i: int| 0 <= i < old(parts)@.len() ==> part_field(#[trigger] old(parts)@[i]) < 0,
        forall|i: int, j: int|
            0 <= i < j < old(parts)@.len() ==> part_field(old(parts)@[i]) < part_field(
                old(parts)@[j],
            ),
    ensures
        concat_parts(final(parts)@).0 == concat_parts(old(parts)@).0 + field@,
        concat_parts(final(parts)@).1 == concat_parts(old(parts)@).1,
        concat_parts(final(parts)@).2 == concat_parts(old(parts)@).2,
        concat_parts(final(parts)@).3 == concat_parts(old(parts)@).3,
        concat_parts(final(parts)@).4 == concat_parts(old(parts)@).4,
        concat_parts(final(parts)@).5 == concat_parts(old(parts)@).5,
        sum_part_lengths(final(parts)@) == sum_part_lengths(old(parts)@) + field@.len(),
        forall|i: int|
            0 <= i < final(parts)@.len() ==> single_field_part(
                #[trigger] final(parts)@[i],
                part_field(final(parts)@[i]),
            ) && (#[trigger] final(parts)@[i]).wf() && part_field(final(parts)@[i]) >= 0,
        forall|i: int| 0 <= i < final(parts)@.len() ==> part_field(#[trigger] final(parts)@[i]) <= 0,
        forall|i: int, j: int|
            0 <= i < j < final(parts)@.len() ==> part_field(final(parts)@[i]) < part_field(
                final(parts)@[j],
            ),
{
    if field.len() > 0 {
        let mut part = ThinStateDiff::empty();
        part.deployed_contracts = field;
        let ghost before = parts@;
        append_single_field_part(parts, part, Ghost(0));
        proof {
            assert(concat_parts(parts@).1 =~= concat_parts(before).1);
            assert(concat_parts(parts@).2 =~= concat_parts(before).2);
            assert(concat_parts(parts@).3 =~= concat_parts(before).3);
            assert(concat_parts(parts@).4 =~= concat_parts(before).4);
            assert(concat_parts(parts@).5 =~= concat_parts(before).5);
        }
    } else {
        proof {
            assert(concat_parts(parts@).0 + field@ =~= concat_parts(parts@).0);
        }
    }
}

/// Pushes the storage diffs field as its own part, when populated.
fn push_storage_part(parts: &mut Vec<ThinStateDiff>, field: Vec<(u64, Vec<(u64, u64)>)>)
    requires
        seq_unique(assoc_keys(field@)),
        forall|i: int| 0 <= i < field@.len() ==> seq_unique(assoc_keys(#[trigger] field@[i].1@)),
        storage_entries_len(field@) <= u64::MAX,
        forall|i: int|
            0 <= i < old(parts)@.len() ==> single_field_part(
                #[trigger] old(parts)@[i],
                part_field(old(parts)@[i]),
            ) && (#[trigger] old(parts)@[i]).wf() && part_field(old(parts)@[i]) >= 0,
        forall|i: int| 0 <= i < old(parts)@.len() ==> part_field(#[trigger] old(parts)@[i]) < 1,
        forall|i: int, j: int|
            0 <= i < j < old(parts)@.len() ==> part_field(old(parts)@[i]) < part_field(
                old(parts)@[j],
            ),
    ensures
        concat_parts(final(parts)@).0 == concat_parts(old(parts)@).0,
        concat_parts(final(parts)@).1 == concat_parts(old(parts)@).1 + field@,
        concat_parts(final(parts)@).2 == concat_parts(old(parts)@).2,
        concat_parts(final(parts)@).3 == concat_parts(old(parts)@).3,
        concat_parts(final(parts)@).4 == concat_parts(old(parts)@).4,
        concat_parts(final(parts)@).5 == concat_parts(old(parts)@).5,
        sum_part_lengths(final(parts)@) == sum_part_lengths(old(parts)@) + storage_entries_len(field@),
        forall|i: int|
            0 <= i < final(parts)@.len() ==> single_field_part(
                #[trigger] final(parts)@[i],
                part_field(final(parts)@[i]),
            ) && (#[trigger] final(parts)@[i]).wf() && part_field(final(parts)@[i]) >= 0,
        forall|i: int| 0 <= i < final(parts)@.len() ==> part_field(#[trigger] final(parts)@[i]) <= 1,
        forall|i: int, j: int|
            0 <= i < j < final(parts)@.len() ==> part_field(final(parts)@[i]) < part_field(
                final(parts)@[j],
            ),
{
    if field.len() > 0 {
        let mut part = ThinStateDiff::empty();
        part.storage_diffs = field;
        let ghost before = parts@;
        append_single_field_part(parts, part, Ghost(1));
        proof {
            assert(concat_parts(parts@).0 =~= concat_parts(before).0);
            assert(concat_parts(parts@).2 =~= concat_parts(before).2);
            assert(concat_parts(parts@).3 =~= concat_parts(before).3);
            assert(concat_parts(parts@).4 =~= concat_parts(before).4);
            assert(concat_parts(parts@).5 =~= concat_parts(before).5);
        }
    } else {
        proof {
            assert(concat_parts(parts@).1 + field@ =~= concat_parts(parts@).1);
        }
    }
}

/// Pushes the declared classes field as its own part, when populated.
fn push_declared_part(parts: &mut Vec<ThinStateDiff>, field: Vec<(u64, u64)>)
    requires
        seq_unique(assoc_keys(field@)),
        field@.len() <= u64::MAX,
        forall|i: int|
            0 <= i < old(parts)@.len() ==> single_field_part(
                #[trigger] old(parts)@[i],
                part_field(old(parts)@[i]),
            ) && (#[trigger] old(parts)@[i]).wf() && part_field(old(parts)@[i]) >= 0,
        forall|i: int| 0 <= i < old(parts)@.len() ==> part_field(#[trigger] old(parts)@[i]) < 2,
        forall|i: int, j: int|
            0 <= i < j < old(parts)@.len() ==> part_field(old(parts)@[i]) < part_field(
                old(parts)@[j],
            ),
    ensures
        concat_parts(final(parts)@).0 == concat_parts(old(parts)@).0,
        concat_parts(final(parts)@).1 == concat_parts(old(parts)@).1,
        concat_parts(final(parts)@).2 == concat_parts(old(parts)@).2 + field@,
        concat_parts(final(parts)@).3 == concat_parts(old(parts)@).3,
        concat_parts(final(parts)@).4 == concat_parts(old(parts)@).4,
        concat_parts(final(parts)@).5 == concat_parts(old(parts)@).5,
        sum_part_lengths(final(parts)@) == sum_part_lengths(old(parts)@) + field@.len(),
        forall|i: int|
            0 <= i < final(parts)@.len() ==> single_field_part(
                #[trigger] final(parts)@[i],
                part_field(final(parts)@[i]),
            ) && (#[trigger] final(parts)@[i]).wf() && part_field(final(parts)@[i]) >= 0,
        forall|i: int| 0 <= i < final(parts)@.len() ==> part_field(#[trigger] final(parts)@[i]) <= 2,
        forall|i: int, j: int|
            0 <= i < j < final(parts)@.len() ==> part_field(final(parts)@[i]) < part_field(
                final(parts)@[j],
            ),
{
    if field.len() > 0 {
        let mut part = ThinStateDiff::empty();
        part.declared_classes = field;
        let ghost before = parts@;
        append_single_field_part(parts, part, Ghost(2));
        proof {
            assert(concat_parts(parts@).0 =~= concat_parts(before).0);
            assert(concat_parts(parts@).1 =~= concat_parts(before).1);
            assert(concat_parts(parts@).3 =~= concat_parts(before).3);
            assert(concat_parts(parts@).4 =~= concat_parts(before).4);
            assert(concat_parts(parts@).5 =~= concat_parts(before).5);
        }
    } else {
        proof {
            assert(concat_parts(parts@).2 + field@ =~= concat_parts(parts@).2);
        }
    }
}

/// Pushes the deprecated declared classes field as its own part, when populated.
fn push_deprecated_part(parts: &mut Vec<ThinStateDiff>, field: Vec<u64>)
    requires
        field@.len() <= u64::MAX,
        forall|i: int|
            0 <= i < old(parts)@.len() ==> single_field_part(
                #[trigger] old(parts)@[i],
                part_field(old(parts)@[i]),
            ) && (#[trigger] old(parts)@[i]).wf() && part_field(old(parts)@[i]) >= 0,
        forall|i: int| 0 <= i < old(parts)@.len() ==> part_field(#[trigger] old(parts)@[i]) < 3,
        forall|i: int, j: int|
            0 <= i < j < old(parts)@.len() ==> part_field(old(parts)@[i]) < part_field(
                old(parts)@[j],
            ),
    ensures
        concat_parts(final(parts)@).0 == concat_parts(old(parts)@).0,
        concat_parts(final(parts)@).1 == concat_parts(old(parts)@).1,
        concat_parts(final(parts)@).2 == concat_parts(old(parts)@).2,
        concat_parts(final(parts)@).3 == concat_parts(old(parts)@).3 + field@,
        concat_parts(final(parts)@).4 == concat_parts(old(parts)@).4,
        concat_parts(final(parts)@).5 == concat_parts(old(parts)@).5,
        sum_part_lengths(final(parts)@) == sum_part_lengths(old(parts)@) + field@.len(),
        forall|i: int|
            0 <= i < final(parts)@.len() ==> single_field_part(
                #[trigger] final(parts)@[i],
                part_field(final(parts)@[i]),
            ) && (#[trigger] final(parts)@[i]).wf() && part_field(final(parts)@[i]) >= 0,
        forall|i: int| 0 <= i < final(parts)@.len() ==> part_field(#[trigger] final(parts)@[i]) <= 3,
        forall|i: int, j: int|
            0 <= i < j < final(parts)@.len() ==> part_field(final(parts)@[i]) < part_field(
                final(parts)@[j],
            ),
{
    if field.len() > 0 {
        let mut part = ThinStateDiff::empty();
        part.deprecated_declared_classes = field;
        let ghost before = parts@;
        append_single_field_part(parts, part, Ghost(3));
        proof {
            assert(concat_parts(parts@).0 =~= concat_parts(before).0);
            assert(concat_parts(parts@).1 =~= concat_parts(before).1);
            assert(concat_parts(parts@).2 =~= concat_parts(before).2);
            assert(concat_parts(parts@).4 =~= concat_parts(before).4);
            assert(concat_parts(parts@).5 =~= concat_parts(before).5);
        }
    } else {
        proof {
            assert(concat_parts(parts@).3 + field@ =~= concat_parts(parts@).3);
        }
    }
}

/// Pushes the nonces field as its own part, when populated.
fn push_nonces_part(parts: &mut Vec<ThinStateDiff>, field: Vec<(u64, u64)>)
    requires
        seq_unique(assoc_keys(field@)),
        field@.len() <= u64::MAX,
        forall|i: int|
            0 <= i < old(parts)@.len() ==> single_field_part(
                #[trigger] old(parts)@[i],
                part_field(old(parts)@[i]),
            ) && (#[trigger] old(parts)@[i]).wf() && part_field(old(parts)@[i]) >= 0,
        forall|i: int| 0 <= i < old(parts)@.len() ==> part_field(#[trigger] old(parts)@[i]) < 4,
        forall|i: int, j: int|
            0 <= i < j < old(parts)@.len() ==> part_field(old(parts)@[i]) < part_field(
                old(parts)@[j],
            ),
    ensures
        concat_parts(final(parts)@).0 == concat_parts(old(parts)@).0,
        concat_parts(final(parts)@).1 == concat_parts(old(parts)@).1,
        concat_parts(final(parts)@).2 == concat_parts(old(parts)@).2,
        concat_parts(final(parts)@).3 == concat_parts(old(parts)@).3,
        concat_parts(final(parts)@).4 == concat_parts(old(parts)@).4 + field@,
        concat_parts(final(parts)@).5 == concat_parts(old(parts)@).5,
        sum_part_lengths(final(parts)@) == sum_part_lengths(old(parts)@) + field@.len(),
        forall|i: int|
            0 <= i < final(parts)@.len() ==> single_field_part(
                #[trigger] final(parts)@[i],
                part_field(final(parts)@[i]),
            ) && (#[trigger] final(parts)@[i]).wf() && part_field(final(parts)@[i]) >= 0,
        forall|i: int| 0 <= i < final(parts)@.len() ==> part_field(#[trigger] final(parts)@[i]) <= 4,
        forall|i: int, j: int|
            0 <= i < j < final(parts)@.len() ==> part_field(final(parts)@[i]) < part_field(
                final(parts)@[j],
            ),
{
    if field.len() > 0 {
        let mut part = ThinStateDiff::empty();
        part.nonces = field;
        let ghost before = parts@;
        append_single_field_part(parts, part, Ghost(4));
        proof {
            assert(concat_parts(parts@).0 =~= concat_parts(before).0);
            assert(concat_parts(parts@).1 =~= concat_parts(before).1);
            assert(concat_parts(parts@).2 =~= concat_parts(before).2);
            assert(concat_parts(parts@).3 =~= concat_parts(before).3);
            assert(concat_parts(parts@).5 =~= concat_parts(before).5);
        }
    } else {
        proof {
            assert(concat_parts(parts@).4 + field@ =~= concat_parts(parts@).4);
        }
    }
}

/// Pushes the replaced classes field as its own part, when populated.
fn push_replaced_part(parts: &mut Vec<ThinStateDiff>, field: Vec<(u64, u64)>)
    requires
        seq_unique(assoc_keys(field@)),
        field@.len() <= u64::MAX,
        forall|i: int|
            0 <= i < old(parts)@.len() ==> single_field_part(
                #[trigger] old(parts)@[i],
                part_field(old(parts)@[i]),
            ) && (#[trigger] old(parts)@[i]).wf() && part_field(old(parts)@[i]) >= 0,
        forall|i: int| 0 <= i < old(parts)@.len() ==> part_field(#[trigger] old(parts)@[i]) < 5,
        forall|i: int, j: int|
            0 <= i < j < old(parts)@.len() ==> part_field(old(parts)@[i]) < part_field(
                old(parts)@[j],
            ),
    ensures
        concat_parts(final(parts)@).0 == concat_parts(old(parts)@).0,
        concat_parts(final(parts)@).1 == concat_parts(old(parts)@).1,
        concat_parts(final(parts)@).2 == concat_parts(old(parts)@).2,
        concat_parts(final(parts)@).3 == concat_parts(old(parts)@).3,
        concat_parts(final(parts)@).4 == concat_parts(old(parts)@).4,
        concat_parts(final(parts)@).5 == concat_parts(old(parts)@).5 + field@,
        sum_part_lengths(final(parts)@) == sum_part_lengths(old(parts)@) + field@.len(),
        forall|i: int|
            0 <= i < final(parts)@.len() ==> single_field_part(
                #[trigger] final(parts)@[i],
                part_field(final(parts)@[i]),
            ) && (#[trigger] final(parts)@[i]).wf() && part_field(final(parts)@[i]) >= 0,
        forall|i: int| 0 <= i < final(parts)@.len() ==> part_field(#[trigger] final(parts)@[i]) <= 5,
        forall|i: int, j: int|
            0 <= i < j < final(parts)@.len() ==> part_field(final(parts)@[i]) < part_field(
                final(parts)@[j],
            ),
{
    if field.len() > 0 {
        let mut part = ThinStateDiff::empty();
        part.replaced_classes = field;
        let ghost before = parts@;
        append_single_field_part(parts, part, Ghost(5));
        proof {
            assert(concat_parts(parts@).0 =~= concat_parts(before).0);
            assert(concat_parts(parts@).1 =~= concat_parts(before).1);
            assert(concat_parts(parts@).2 =~= concat_parts(before).2);
            assert(concat_parts(parts@).3 =~= concat_parts(before).3);
            assert(concat_parts(parts@).4 =~= concat_parts(before).4);
        }
    } else {
        proof {
            assert(concat_parts(parts@).5 + field@ =~= concat_parts(parts@).5);
        }
    }
}

/// Splits a diff into its populated fields, one part per field, in field order.
///
/// The parts hold, field by field, exactly the entries of the diff; each part
/// carries exactly one populated field; parts appear in the fixed field order
/// and never overlap one another.
pub fn split_state_diff(state_diff: ThinStateDiff) -> (r: Vec<ThinStateDiff>)
    requires
        state_diff.wf(),
    ensures
        is_concat_of(state_diff, r@),
        sum_part_lengths(r@) == state_diff.spec_len(),
        forall|i: int| 0 <= i < r@.len() ==> (#[trigger] r@[i]).wf(),
        forall|i: int|
            0 <= i < r@.len() ==> single_field_part(#[trigger] r@[i], part_field(r@[i]))
                && 0 <= part_field(r@[i]) <= 5,
        forall|i: int, j: int| 0 <= i < j < r@.len() ==> part_field(r@[i]) < part_field(r@[j]),
        forall|i: int, j: int| 0 <= i < j < r@.len() ==> !r@[i].conflicts(r@[j]),
{
    let ghost sd = state_diff;
    let ThinStateDiff {
        deployed_contracts,
        storage_diffs,
        declared_classes,
        deprecated_declared_classes,
        nonces,
        replaced_classes,
    } = state_diff;
    let mut r: Vec<ThinStateDiff> = Vec::new();
    push_deployed_part(&mut r, deployed_contracts);
    push_storage_part(&mut r, storage_diffs);
    push_declared_part(&mut r, declared_classes);
    push_deprecated_part(&mut r, deprecated_declared_classes);
    push_nonces_part(&mut r, nonces);
    push_replaced_part(&mut r, replaced_classes);
    proof {
        assert(concat_parts(r@).0 =~= sd.deployed_contracts@);
        assert(concat_parts(r@).1 =~= sd.storage_diffs@);
        assert(concat_parts(r@).2 =~= sd.declared_classes@);
        assert(concat_parts(r@).3 =~= sd.deprecated_declared_classes@);
        assert(concat_parts(r@).4 =~= sd.nonces@);
        assert(concat_parts(r@).5 =~= sd.replaced_classes@);
        assert forall|i: int, j: int| 0 <= i < j < r@.len() implies !r@[i].conflicts(
            r@[j],
        ) by {
            lemma_single_fields_no_conflict(r@[i], r@[j]);
        }
    }
    r
}


/// A shared key in the same field — a contract deployed by both, a contract
/// whose storage both touch, a class both declare (current or deprecated), a
/// contract whose nonce or class both change — makes two diffs overlap,
/// whatever values the entries carry. Together with the assembler's contract,
/// any such part is rejected as conflicting.
pub proof fn lemma_shared_key_conflicts(a: ThinStateDiff, b: ThinStateDiff)
    requires
        ({
            ||| exists|i: int, j: int|
                0 <= i < a.deployed_contracts@.len() && 0 <= j < b.deployed_contracts@.len() && (
                #[trigger] a.deployed_contracts@[i]).0 == (#[trigger] b.deployed_contracts@[j]).0
            ||| exists|i: int, j: int|
                0 <= i < a.storage_diffs@.len() && 0 <= j < b.storage_diffs@.len() && (
                #[trigger] a.storage_diffs@[i]).0 == (#[trigger] b.storage_diffs@[j]).0
            ||| exists|i: int, j: int|
                0 <= i < a.declared_classes@.len() && 0 <= j < b.declared_classes@.len() && (
                #[trigger] a.declared_classes@[i]).0 == (#[trigger] b.declared_classes@[j]).0
            ||| exists|i: int, j: int|
                0 <= i < a.deprecated_declared_classes@.len() && 0 <= j
                    < b.deprecated_declared_classes@.len() && (
                #[trigger] a.deprecated_declared_classes@[i]) == (
                #[trigger] b.deprecated_declared_classes@[j])
            ||| exists|i: int, j: int|
                0 <= i < a.nonces@.len() && 0 <= j < b.nonces@.len() && (#[trigger] a.nonces@[i]).0
                    == (#[trigger] b.nonces@[j]).0
            ||| exists|i: int, j: int|
                0 <= i < a.replaced_classes@.len() && 0 <= j < b.replaced_classes@.len() && (
                #[trigger] a.replaced_classes@[i]).0 == (#[trigger] b.replaced_classes@[j]).0
        }),
    ensures
        a.conflicts(b),
{
    if exists|i: int, j: int|
        0 <= i < a.deployed_contracts@.len() && 0 <= j < b.deployed_contracts@.len() && (
        #[trigger] a.deployed_contracts@[i]).0 == (#[trigger] b.deployed_contracts@[j]).0 {
        let (i, j) = choose|i: int, j: int|
            0 <= i < a.deployed_contracts@.len() && 0 <= j < b.deployed_contracts@.len() && (
            #[trigger] a.deployed_contracts@[i]).0 == (#[trigger] b.deployed_contracts@[j]).0;
        assert(assoc_keys(a.deployed_contracts@)[i] == assoc_keys(b.deployed_contracts@)[j]);
    } else if exists|i: int, j: int|
        0 <= i < a.storage_diffs@.len() && 0 <= j < b.storage_diffs@.len() && (
        #[trigger] a.storage_diffs@[i]).0 == (#[trigger] b.storage_diffs@[j]).0 {
        let (i, j) = choose|i: int, j: int|
            0 <= i < a.storage_diffs@.len() && 0 <= j < b.storage_diffs@.len() && (
            #[trigger] a.storage_diffs@[i]).0 == (#[trigger] b.storage_diffs@[j]).0;
        assert(assoc_keys(a.storage_diffs@)[i] == assoc_keys(b.storage_diffs@)[j]);
    } else if exists|i: int, j: int|
        0 <= i < a.declared_classes@.len() && 0 <= j < b.declared_classes@.len() && (
        #[trigger] a.declared_classes@[i]).0 == (#[trigger] b.declared_classes@[j]).0 {
        let (i, j) = choose|i: int, j: int|
            0 <= i < a.declared_classes@.len() && 0 <= j < b.declared_classes@.len() && (
            #[trigger] a.declared_classes@[i]).0 == (#[trigger] b.declared_classes@[j]).0;
        assert(assoc_keys(a.declared_classes@)[i] == assoc_keys(b.declared_classes@)[j]);
    } else if exists|i: int, j: int|
        0 <= i < a.deprecated_declared_classes@.len() && 0 <= j
            < b.deprecated_declared_classes@.len() && (
        #[trigger] a.deprecated_declared_classes@[i]) == (
        #[trigger] b.deprecated_declared_classes@[j]) {
        assert(!seqs_disjoint(a.deprecated_declared_classes@, b.deprecated_declared_classes@));
    } else if exists|i: int, j: int|
        0 <= i < a.nonces@.len() && 0 <= j < b.nonces@.len() && (#[trigger] a.nonces@[i]).0 == (
        #[trigger] b.nonces@[j]).0 {
        let (i, j) = choose|i: int, j: int|
            0 <= i < a.nonces@.len() && 0 <= j < b.nonces@.len() && (#[trigger] a.nonces@[i]).0
                == (#[trigger] b.nonces@[j]).0;
        assert(assoc_keys(a.nonces@)[i] == assoc_keys(b.nonces@)[j]);
    } else {
        let (i, j) = choose|i: int, j: int|
            0 <= i < a.replaced_classes@.len() && 0 <= j < b.replaced_classes@.len() && (
            #[trigger] a.replaced_classes@[i]).0 == (#[trigger] b.replaced_classes@[j]).0;
        assert(assoc_keys(a.replaced_classes@)[i] == assoc_keys(b.replaced_classes@)[j]);
    }
}

/// Overlap is judged by keys alone: two pairs of diffs whose fields hold the
/// same keys overlap alike, whatever values stand beside the keys.
pub proof fn lemma_conflicts_ignore_values(
    a: ThinStateDiff,
    b: ThinStateDiff,
    a2: ThinStateDiff,
    b2: ThinStateDiff,
)
    requires
        assoc_keys(a.deployed_contracts@) == assoc_keys(a2.deployed_contracts@),
        assoc_keys(b.deployed_contracts@) == assoc_keys(b2.deployed_contracts@),
        assoc_keys(a.storage_diffs@) == assoc_keys(a2.storage_diffs@),
        assoc_keys(b.storage_diffs@) == assoc_keys(b2.storage_diffs@),
        assoc_keys(a.declared_classes@) == assoc_keys(a2.declared_classes@),
        assoc_keys(b.declared_classes@) == assoc_keys(b2.declared_classes@),
        a.deprecated_declared_classes@ == a2.deprecated_declared_classes@,
        b.deprecated_declared_classes@ == b2.deprecated_declared_classes@,
        assoc_keys(a.nonces@) == assoc_keys(a2.nonces@),
        assoc_keys(b.nonces@) == assoc_keys(b2.nonces@),
        assoc_keys(a.replaced_classes@) == assoc_keys(a2.replaced_classes@),
        assoc_keys(b.replaced_classes@) == assoc_keys(b2.replaced_classes@),
    ensures
        a.conflicts(b) == a2.conflicts(b2),
{
}


/// Part-length sums add up over concatenation.
pub proof fn lemma_sum_parts_concat(a: Seq<ThinStateDiff>, b: Seq<ThinStateDiff>)
    ensures
        sum_part_lengths(a + b) == sum_part_lengths(a) + sum_part_lengths(b),
    decreases b.len(),
{
    if b.len() == 0 {
        assert(a + b =~= a);
    } else {
        assert((a + b).drop_last() =~= a + b.drop_last());
        lemma_sum_parts_concat(a, b.drop_last());
    }
}

/// A sequence splits into any prefix and the rest, length-sum-wise.
pub proof fn lemma_sum_parts_split(parts: Seq<ThinStateDiff>, i: int)
    requires
        0 <= i <= parts.len(),
    ensures
        sum_part_lengths(parts) == sum_part_lengths(parts.subrange(0, i)) + sum_part_lengths(
            parts.subrange(i, parts.len() as int),
        ),
{
    assert(parts =~= parts.subrange(0, i) + parts.subrange(i, parts.len() as int));
    lemma_sum_parts_concat(parts.subrange(0, i), parts.subrange(i, parts.len() as int));
}

/// A diff made of parts that each keep clear of a newcomer keeps clear of it
/// too.
pub proof fn lemma_concat_avoids_conflict(parts: Seq<ThinStateDiff>, acc: ThinStateDiff,
    p: ThinStateDiff)
    requires
        is_concat_of(acc, parts),
        forall|k: int| 0 <= k < parts.len() ==> !(#[trigger] parts[k]).conflicts(p),
    ensures
        !acc.conflicts(p),
{
    lemma_concat_fields_disjoint(parts, p);
}

/// Each concatenated field of conflict-free parts stays disjoint from the
/// newcomer's same field.
proof fn lemma_concat_fields_disjoint(parts: Seq<ThinStateDiff>, p: ThinStateDiff)
    requires
        forall|k: int| 0 <= k < parts.len() ==> !(#[trigger] parts[k]).conflicts(p),
    ensures
        seqs_disjoint(assoc_keys(concat_parts(parts).0), assoc_keys(p.deployed_contracts@)),
        seqs_disjoint(assoc_keys(concat_parts(parts).1), assoc_keys(p.storage_diffs@)),
        seqs_disjoint(assoc_keys(concat_parts(parts).2), assoc_keys(p.declared_classes@)),
        seqs_disjoint(concat_parts(parts).3, p.deprecated_declared_classes@),
        seqs_disjoint(assoc_keys(concat_parts(parts).4), assoc_keys(p.nonces@)),
        seqs_disjoint(assoc_keys(concat_parts(parts).5), assoc_keys(p.replaced_classes@)),
    decreases parts.len(),
{
    if parts.len() > 0 {
        lemma_concat_fields_disjoint(parts.drop_last(), p);
        let last = parts.last();
        assert(parts.drop_last().push(last) =~= parts);
        lemma_concat_parts_push(parts.drop_last(), last);
        lemma_assoc_keys_concat(concat_parts(parts.drop_last()).0, last.deployed_contracts@);
        lemma_assoc_keys_concat(concat_parts(parts.drop_last()).1, last.storage_diffs@);
        lemma_assoc_keys_concat(concat_parts(parts.drop_last()).2, last.declared_classes@);
        lemma_assoc_keys_concat(concat_parts(parts.drop_last()).4, last.nonces@);
        lemma_assoc_keys_concat(concat_parts(parts.drop_last()).5, last.replaced_classes@);
        lemma_disjoint_concat(
            assoc_keys(concat_parts(parts.drop_last()).0),
            assoc_keys(last.deployed_contracts@),
            assoc_keys(p.deployed_contracts@),
        );
        lemma_disjoint_concat(
            assoc_keys(concat_parts(parts.drop_last()).1),
            assoc_keys(last.storage_diffs@),
            assoc_keys(p.storage_diffs@),
        );
        lemma_disjoint_concat(
            assoc_keys(concat_parts(parts.drop_last()).2),
            assoc_keys(last.declared_classes@),
            assoc_keys(p.declared_classes@),
        );
        lemma_disjoint_concat(
            concat_parts(parts.drop_last()).3,
            last.deprecated_declared_classes@,
            p.deprecated_declared_classes@,
        );
        lemma_disjoint_concat(
            assoc_keys(concat_parts(parts.drop_last()).4),
            assoc_keys(last.nonces@),
            assoc_keys(p.nonces@),
        );
        lemma_disjoint_concat(
            assoc_keys(concat_parts(parts.drop_last()).5),
            assoc_keys(last.replaced_classes@),
            assoc_keys(p.replaced_classes@),
        );
    }
}

/// A concatenation is disjoint from a sequence when both halves are.
proof fn lemma_disjoint_concat(a: Seq<u64>, b: Seq<u64>, c: Seq<u64>)
    requires
        seqs_disjoint(a, c),
        seqs_disjoint(b, c),
    ensures
        seqs_disjoint(a + b, c),
{
    assert forall|i: int, j: int|
        0 <= i < (a + b).len() && 0 <= j < c.len() implies (a + b)[i] != c[j] by {
        if i < a.len() {
            assert(a[i] != c[j]);
        } else {
            assert(b[i - a.len()] != c[j]);
        }
    }
}

/// The keys of a concatenation are the concatenated keys.
pub proof fn lemma_assoc_keys_concat<T>(a: Seq<(u64, T)>, b: Seq<(u64, T)>)
    ensures
        assoc_keys(a + b) == assoc_keys(a) + assoc_keys(b),
{
    assert(assoc_keys(a + b) =~= assoc_keys(a) + assoc_keys(b));
}

/// Uniqueness is preserved by concatenating disjoint unique sequences.
pub proof fn lemma_unique_concat(a: Seq<u64>, b: Seq<u64>)
    requires
        seq_unique(a),
        seq_unique(b),
        seqs_disjoint(a, b),
    ensures
        seq_unique(a + b),
{
    assert forall|i: int, j: int| 0 <= i < j < (a + b).len() implies (a + b)[i] != (a
        + b)[j] by {
        if j < a.len() {
            assert(a[i] != a[j]);
        } else if i >= a.len() {
            assert(b[i - a.len()] != b[j - a.len()]);
        } else {
            assert(a[i] != b[j - a.len()]);
        }
    }
}

/// Storage entry counts add up over concatenation.
pub proof fn lemma_storage_entries_len_concat(
    a: Seq<(u64, Vec<(u64, u64)>)>,
    b: Seq<(u64, Vec<(u64, u64)>)>,
)
    ensures
        storage_entries_len(a + b) == storage_entries_len(a) + storage_entries_len(b),
    decreases b.len(),
{
    if b.len() == 0 {
        assert(a + b =~= a);
    } else {
        assert((a + b).drop_last() =~= a + b.drop_last());
        lemma_storage_entries_len_concat(a, b.drop_last());
    }
}

/// A prefix never holds more storage entries than the whole.
pub proof fn lemma_storage_entries_len_prefix(s: Seq<(u64, Vec<(u64, u64)>)>, i: int)
    requires
        0 <= i <= s.len(),
    ensures
        storage_entries_len(s.subrange(0, i)) <= storage_entries_len(s),
{
    assert(s =~= s.subrange(0, i) + s.subrange(i, s.len() as int));
    lemma_storage_entries_len_concat(s.subrange(0, i), s.subrange(i, s.len() as int));
}

/// Builds a well-formed diff from six drawn words — three distinct contracts,
/// a class hash, a compiled class hash and a deprecated class hash — covering
/// five of the six fields: three deployments, two contracts with two storage
/// cells each, one declared class, one deprecated class and two nonces.
pub fn state_diff_from_words(
    contract0: u64,
    contract1: u64,
    contract2: u64,
    class_hash: u64,
    compiled_class_hash: u64,
    deprecated_class_hash: u64,
) -> (r: ThinStateDiff)
    requires
        contract0 != contract1,
        contract0 != contract2,
        contract1 != contract2,
    ensures
        r.deployed_contracts@ == seq![
            (contract0, class_hash),
            (contract1, class_hash),
            (contract2, deprecated_class_hash),
        ],
        r.storage_diffs@.len() == 2,
        r.storage_diffs@[0].0 == contract0,
        r.storage_diffs@[0].1@ == seq![(1u64, 1u64), (2u64, 2u64)],
        r.storage_diffs@[1].0 == contract1,
        r.storage_diffs@[1].1@ == seq![(3u64, 2u64), (4u64, 1u64)],
        r.declared_classes@ == seq![(class_hash, compiled_class_hash)],
        r.deprecated_declared_classes@ == seq![deprecated_class_hash],
        r.nonces@ == seq![(contract0, 1u64), (contract2, 2u64)],
        r.replaced_classes@ == Seq::<(u64, u64)>::empty(),
        r.spec_len() == 11,
        r.wf(),
{
    let mut deployed_contracts: Vec<(u64, u64)> = Vec::new();
    deployed_contracts.push((contract0, class_hash));
    deployed_contracts.push((contract1, class_hash));
    deployed_contracts.push((contract2, deprecated_class_hash));
    let mut cells0: Vec<(u64, u64)> = Vec::new();
    cells0.push((1, 1));
    cells0.push((2, 2));
    let mut cells1: Vec<(u64, u64)> = Vec::new();
    cells1.push((3, 2));
    cells1.push((4, 1));
    let mut storage_diffs: Vec<(u64, Vec<(u64, u64)>)> = Vec::new();
    storage_diffs.push((contract0, cells0));
    storage_diffs.push((contract1, cells1));
    let mut declared_classes: Vec<(u64, u64)> = Vec::new();
    declared_classes.push((class_hash, compiled_class_hash));
    let mut deprecated_declared_classes: Vec<u64> = Vec::new();
    deprecated_declared_classes.push(deprecated_class_hash);
    let mut nonces: Vec<(u64, u64)> = Vec::new();
    nonces.push((contract0, 1));
    nonces.push((contract2, 2));
    let replaced_classes: Vec<(u64, u64)> = Vec::new();
    let r = ThinStateDiff {
        deployed_contracts,
        storage_diffs,
        declared_classes,
        deprecated_declared_classes,
        nonces,
        replaced_classes,
    };
    proof {
        assert(r.deployed_contracts@ =~= seq![
            (contract0, class_hash),
            (contract1, class_hash),
            (contract2, deprecated_class_hash),
        ]);
        assert(r.storage_diffs@[0].1@ =~= seq![(1u64, 1u64), (2u64, 2u64)]);
        assert(r.storage_diffs@[1].1@ =~= seq![(3u64, 2u64), (4u64, 1u64)]);
        assert(r.declared_classes@ =~= seq![(class_hash, compiled_class_hash)]);
        assert(r.deprecated_declared_classes@ =~= seq![deprecated_class_hash]);
        assert(r.nonces@ =~= seq![(contract0, 1u64), (contract2, 2u64)]);
        assert(r.replaced_classes@ =~= Seq::<(u64, u64)>::empty());
        assert(r.storage_diffs@.drop_last() =~= seq![r.storage_diffs@[0]]);
        assert(seq![r.storage_diffs@[0]].drop_last() =~= Seq::<(u64, Vec<(u64, u64)>)>::empty());
        assert(storage_entries_len(Seq::<(u64, Vec<(u64, u64)>)>::empty()) == 0);
        assert(seq![r.storage_diffs@[0]].last() == r.storage_diffs@[0]);
        assert(storage_entries_len(seq![r.storage_diffs@[0]]) == 2);
        assert(r.storage_diffs@.last() == r.storage_diffs@[1]);
        assert(storage_entries_len(r.storage_diffs@) == 4);
    }
    r
}

} // verus!
