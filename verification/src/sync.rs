//! The state-diff synchronization engine: it turns signed block headers into
//! fixed-size state-diff queries, assembles multi-part state-diff responses
//! against each header's declared length, and commits each reconstructed diff
//! to storage atomically, block by block.

use vstd::prelude::*;

use crate::protocol::{BlockNumber, DataType, Direction, Query};
use crate::state_diff::{
    boundary_lengths_of, is_concat_of, lemma_concat_avoids_conflict, lemma_concat_parts_push,
    lemma_sum_parts_concat, sum_part_lengths, ThinStateDiff,
};

verus! {

/// An engine-level protocol violation; it terminates the synchronization task.
#[derive(Debug, Clone, PartialEq, Eq)]
pub enum P2PSyncError {
    /// A received state-diff part carried no entries at all.
    EmptyStateDiffPart,
    /// The parts received for a block cannot reach the header's declared length:
    /// the running lengths at the merge boundaries are listed.
    WrongStateDiffLength { expected_length: u64, possible_lengths: Vec<u128> },
    /// Two parts of one block carried the same key in the same field.
    ConflictingStateDiffParts,
}

/// The state store, as the engine sees it: per-block state diffs, appended in
/// block order. The marker is the next unwritten block number; an append moves
/// it and stores the diff in one step.
#[derive(Debug, Clone, PartialEq, Eq)]
pub struct StateStorage {
    pub diffs: Vec<ThinStateDiff>,
}

impl StateStorage {
    /// The next unwritten block number.
    pub open spec fn spec_marker(self) -> nat {
        self.diffs@.len()
    }

    /// The diff stored for each written block.
    pub open spec fn spec_diffs(self) -> Seq<ThinStateDiff> {
        self.diffs@
    }

    /// An empty store: no block written yet.
    pub fn new() -> (r: StateStorage)
        ensures
            r.spec_marker() == 0,
            r.spec_diffs() == Seq::<ThinStateDiff>::empty(),
    {
        let r = StateStorage { diffs: Vec::new() };
        proof {
            assert(r.diffs@ =~= Seq::<ThinStateDiff>::empty());
        }
        r
    }

    /// The next unwritten block number.
    pub fn state_marker(&self) -> (r: BlockNumber)
        requires
            self.spec_marker() <= u64::MAX,
        ensures
            r.0 == self.spec_marker(),
    {
        BlockNumber(self.diffs.len() as u64)
    }

    /// The diff stored for the block, or nothing when the block is unwritten.
    pub fn get_state_diff(&self, block_number: BlockNumber) -> (r: Option<&ThinStateDiff>)
        ensures
            match r {
                Some(diff) => block_number.0 < self.spec_marker() && *diff == self.spec_diffs()[block_number.0 as int],
                None => block_number.0 >= self.spec_marker(),
            },
    {
        if block_number.0 < self.diffs.len() as u64 {
            Some(&self.diffs[block_number.0 as usize])
        } else {
            None
        }
    }

    /// Appends the block's diff and advances the marker, in one step.
    ///
    /// The marker moves from `block_number` to `block_number + 1` and the stored
    /// diff for `block_number` is exactly the given diff; no other block changes.
    pub fn append_state_diff(&mut self, block_number: BlockNumber, diff: ThinStateDiff)
        requires
            block_number.0 == old(self).spec_marker(),
        ensures
            final(self).spec_diffs() == old(self).spec_diffs().push(diff),
            final(self).spec_marker() == block_number.0 + 1,
            final(self).spec_diffs()[block_number.0 as int] == diff,
    {
        self.diffs.push(diff);
    }
}

/// Assembles one block's state diff from streamed parts, against the length the
/// block's header declared.
pub struct StateDiffAssembler {
    /// The length the header declared for this block's diff.
    pub expected_length: u64,
    /// The merge of the parts accepted so far.
    pub accumulated: ThinStateDiff,
    /// The accumulated diff's length.
    pub current_length: u64,
    /// The running length after each accepted part, in order.
    pub boundary_lengths: Vec<u128>,
    /// The parts accepted so far.
    pub parts: Ghost<Seq<ThinStateDiff>>,
}

impl StateDiffAssembler {
    /// The accumulated diff is exactly the merge of the accepted parts, each of
    /// which carried at least one entry; the running length never passes the
    /// declared length.
    pub open spec fn wf(self) -> bool {
        &&& self.accumulated.wf()
        &&& self.current_length == self.accumulated.spec_len()
        &&& self.current_length <= self.expected_length
        &&& is_concat_of(self.accumulated, self.parts@)
        &&& self.current_length == sum_part_lengths(self.parts@)
        &&& self.boundary_lengths@ == boundary_lengths_of(self.parts@)
        &&& forall|i: int| 0 <= i < self.parts@.len() ==> (#[trigger] self.parts@[i]).spec_len() > 0
    }

    /// Starts assembling a block whose header declared the given diff length.
    pub fn new(expected_length: u64) -> (r: StateDiffAssembler)
        ensures
            r.wf(),
            r.expected_length == expected_length,
            r.current_length == 0,
            r.parts@ == Seq::<ThinStateDiff>::empty(),
    {
        let r = StateDiffAssembler {
            expected_length,
            accumulated: ThinStateDiff::empty(),
            current_length: 0,
            boundary_lengths: Vec::new(),
            parts: Ghost(Seq::empty()),
        };
        proof {
            assert(r.boundary_lengths@ =~= boundary_lengths_of(r.parts@));
        }
        r
    }

    /// Feeds one received part into the block's assembly.
    ///
    /// An entry-less part is rejected; a part overlapping the accumulated diff is
    /// rejected; a part pushing the running length past the declared length is
    /// rejected, listing the boundary lengths reached. Otherwise the part is
    /// merged, and the block's full diff is returned exactly when the running
    /// length meets the declared length — that is, when the lengths of all
    /// accepted parts sum to the declared length.
    pub fn add_part(&mut self, part: ThinStateDiff) -> (r: Result<
        Option<ThinStateDiff>,
        P2PSyncError,
    >)
        requires
            old(self).wf(),
            part.wf(),
            old(self).current_length < old(self).expected_length,
        ensures
            part.spec_len() == 0 ==> r == Err::<Option<ThinStateDiff>, P2PSyncError>(
                P2PSyncError::EmptyStateDiffPart,
            ) && *final(self) == *old(self),
            part.spec_len() > 0 && old(self).accumulated.conflicts(part) ==> r == Err::<
                Option<ThinStateDiff>,
                P2PSyncError,
            >(P2PSyncError::ConflictingStateDiffParts) && *final(self) == *old(self),
            ({
                let new_length = old(self).current_length + part.spec_len();
                &&& (part.spec_len() > 0 && !old(self).accumulated.conflicts(part) && new_length
                    > old(self).expected_length ==> {
                    &&& r matches Err(P2PSyncError::WrongStateDiffLength {
                        expected_length,
                        possible_lengths,
                    }) && expected_length == old(self).expected_length && possible_lengths@ == old(
                        self,
                    ).boundary_lengths@.push(new_length as u128)
                    &&& *final(self) == *old(self)
                })
                &&& (part.spec_len() > 0 && !old(self).accumulated.conflicts(part) && new_length
                    < old(self).expected_length ==> {
                    &&& r == Ok::<Option<ThinStateDiff>, P2PSyncError>(None)
                    &&& final(self).wf()
                    &&& final(self).parts@ == old(self).parts@.push(part)
                    &&& final(self).expected_length == old(self).expected_length
                    &&& final(self).current_length == new_length
                })
                &&& (part.spec_len() > 0 && !old(self).accumulated.conflicts(part) && new_length
                    == old(self).expected_length ==> {
                    &&& r matches Ok(Some(diff)) && diff.wf() && is_concat_of(
                        diff,
                        old(self).parts@.push(part),
                    ) && diff.spec_len() == old(self).expected_length
                    &&& final(self).parts@ == old(self).parts@.push(part)
                })
            }),
            (r matches Ok(Some(_))) <==> (part.spec_len() > 0 && !old(self).accumulated.conflicts(
                part,
            ) && sum_part_lengths(old(self).parts@.push(part)) == old(self).expected_length),
    {
        proof {
            lemma_concat_parts_push(self.parts@, part);
        }
        let part_length = part.len();
        if part_length == 0 {
            return Err(P2PSyncError::EmptyStateDiffPart);
        }
        if self.accumulated.conflicts_with(&part) {
            return Err(P2PSyncError::ConflictingStateDiffParts);
        }
        let new_length_wide: u128 = self.current_length as u128 + part_length as u128;
        if new_length_wide > self.expected_length as u128 {
            let mut possible_lengths = copy_u128s(&self.boundary_lengths);
            possible_lengths.push(new_length_wide);
            return Err(
                P2PSyncError::WrongStateDiffLength {
                    expected_length: self.expected_length,
                    possible_lengths,
                },
            );
        }
        let new_length: u64 = new_length_wide as u64;
        self.accumulated.merge_part(part);
        self.current_length = new_length;
        self.boundary_lengths.push(new_length_wide);
        proof {
            self.parts@ = self.parts@.push(part);
        }
        if new_length == self.expected_length {
            let mut diff = ThinStateDiff::empty();
            core::mem::swap(&mut diff, &mut self.accumulated);
            Ok(Some(diff))
        } else {
            Ok(None)
        }
    }

    /// The boundary lengths reached so far, for reporting a block cut short.
    pub fn into_boundary_lengths(self) -> (r: Vec<u128>)
        ensures
            r@ == self.boundary_lengths@,
    {
        self.boundary_lengths
    }
}

/// Copies a list of wide lengths.
fn copy_u128s(v: &Vec<u128>) -> (r: Vec<u128>)
    ensures
        r@ == v@,
{
    let mut r: Vec<u128> = Vec::new();
    let mut i: usize = 0;
    while i < v.len()
        invariant
            i <= v@.len(),
            r@ == v@.subrange(0, i as int),
        decreases v@.len() - i,
    {
        r.push(v[i]);
        proof {
            assert(r@ =~= v@.subrange(0, i + 1));
        }
        i = i + 1;
    }
    proof {
        assert(v@.subrange(0, v@.len() as int) =~= v@);
    }
    r
}

/// The engine's query window constants.
#[derive(Debug, Clone, Copy, PartialEq, Eq, Structural)]
pub struct P2PSyncConfig {
    /// How many headers one header query asks for.
    pub header_query_length: u64,
    /// How many blocks one state-diff query asks for.
    pub state_diff_query_length: u64,
}

impl P2PSyncConfig {
    /// Windows are non-empty, and a state-diff window never outgrows a header window.
    pub open spec fn wf(self) -> bool {
        0 < self.state_diff_query_length <= self.header_query_length
    }
}

/// The number of consecutive blocks from `i` whose headers declared an empty diff.
pub open spec fn zero_run(declared: Seq<u64>, i: nat) -> nat
    decreases declared.len() - i when i <= declared.len()
{
    if i < declared.len() && declared[i as int] == 0 {
        1 + zero_run(declared, i + 1)
    } else {
        0
    }
}

/// The state-diff synchronization engine's decision state.
///
/// The engine consumes signed block headers and state-diff parts and decides,
/// step by step, which query to issue next, which parts to accept, and when to
/// commit a block; the surrounding event loop performs the channel and storage
/// traffic.
pub struct StateDiffSync {
    /// The window constants.
    pub config: P2PSyncConfig,
    /// The block number of the first header this engine saw.
    pub header_base: u64,
    /// The declared diff length of each header received, for blocks numbered
    /// `header_base` onward, in order.
    pub declared_lengths: Vec<u64>,
    /// The assembly of the block currently being reconstructed, if any.
    pub assembler: Option<StateDiffAssembler>,
    /// The end (exclusive) of the block range of the state-diff query in flight.
    pub window_end: Option<u64>,
}

impl StateDiffSync {
    /// The engine's invariant, relative to the storage marker:
    /// headers cover the blocks from `header_base` up to the header marker; the
    /// storage marker sits inside that range; an active assembly always belongs
    /// to the block at the marker and matches its declared length; a query in
    /// flight always ends past the marker and within the received headers.
    pub open spec fn wf(self, marker: nat) -> bool {
        &&& self.config.wf()
        &&& self.header_base <= marker
        &&& marker <= self.header_base + self.declared_lengths@.len()
        &&& self.header_base + self.declared_lengths@.len() <= u64::MAX
        &&& (self.assembler matches Some(a) ==> {
            &&& a.wf()
            &&& a.current_length < a.expected_length
            &&& marker < self.header_base + self.declared_lengths@.len()
            &&& a.expected_length == self.declared_lengths@[marker - self.header_base]
        })
        &&& (self.window_end matches Some(window_end) ==> marker < window_end <= self.header_base
            + self.declared_lengths@.len())
        &&& (self.assembler is Some ==> self.window_end is Some)
    }

    /// An engine that will synchronize blocks from `start_block` on.
    pub fn new(config: P2PSyncConfig, start_block: BlockNumber) -> (r: StateDiffSync)
        requires
            config.wf(),
        ensures
            r.wf(start_block.0 as nat),
            r.config == config,
            r.header_base == start_block.0,
            r.declared_lengths@ == Seq::<u64>::empty(),
            r.assembler is None,
            r.window_end is None,
    {
        let r = StateDiffSync {
            config,
            header_base: start_block.0,
            declared_lengths: Vec::new(),
            assembler: None,
            window_end: None,
        };
        proof {
            assert(r.declared_lengths@ =~= Seq::<u64>::empty());
        }
        r
    }

    /// Records the declared state-diff length of the next signed header.
    ///
    /// Headers arrive in block order from the header pipeline, each carrying its
    /// declared diff length.
    pub fn on_signed_header(&mut self, header: &crate::protocol::SignedBlockHeader)
        requires
            header.block_header.block_number.0 == old(self).header_base + old(
                self,
            ).declared_lengths@.len(),
            header.block_header.block_number.0 < u64::MAX,
            header.block_header.state_diff_length matches Some(_),
        ensures
            final(self).declared_lengths@ == old(self).declared_lengths@.push(
                header.block_header.state_diff_length->0,
            ),
            final(self).config == old(self).config,
            final(self).header_base == old(self).header_base,
            final(self).assembler == old(self).assembler,
            final(self).window_end == old(self).window_end,
    {
        let declared_length: u64 = match header.block_header.state_diff_length {
            Some(l) => l,
            None => {
                proof {
                    assert(false);
                }
                0
            },
        };
        self.declared_lengths.push(declared_length);
    }

    /// Issues the next state-diff query, when none is in flight and headers for
    /// unwritten blocks have arrived.
    ///
    /// The query starts at the first unwritten block, walks forward with stride
    /// one, and asks for as many blocks as headers allow, capped by the
    /// configured window length.
    pub fn next_state_diff_query(&mut self, marker: BlockNumber) -> (r: Option<Query>)
        requires
            old(self).wf(marker.0 as nat),
            old(self).assembler is None,
        ensures
            final(self).wf(marker.0 as nat),
            final(self).config == old(self).config,
            final(self).header_base == old(self).header_base,
            final(self).declared_lengths == old(self).declared_lengths,
            final(self).assembler is None,
            (r is Some) <==> (old(self).window_end is None && marker.0 < old(self).header_base
                + old(self).declared_lengths@.len()),
            r is None ==> final(self).window_end == old(self).window_end,
            r matches Some(q) ==> {
                let available = old(self).header_base + old(self).declared_lengths@.len()
                    - marker.0;
                let limit = if old(self).config.state_diff_query_length <= available {
                    old(self).config.state_diff_query_length as int
                } else {
                    available
                };
                &&& q == (Query {
                    start_block: marker,
                    direction: Direction::Forward,
                    limit: limit as u64,
                    step: 1,
                    data_type: DataType::StateDiff,
                })
                &&& final(self).window_end == Some((marker.0 + limit) as u64)
            },
    {
        if self.window_end.is_some() {
            return None;
        }
        let header_marker: u64 = self.header_base + (self.declared_lengths.len() as u64);
        if marker.0 >= header_marker {
            return None;
        }
        let available: u64 = header_marker - marker.0;
        let limit: u64 = if self.config.state_diff_query_length <= available {
            self.config.state_diff_query_length
        } else {
            available
        };
        self.window_end = Some(marker.0 + limit);
        Some(
            Query {
                start_block: marker,
                direction: Direction::Forward,
                limit,
                step: 1,
                data_type: DataType::StateDiff,
            },
        )
    }

    /// Commits the run of blocks at the marker whose headers declared an empty
    /// diff: such blocks receive no parts, so their empty diffs are written as
    /// soon as their headers are known.
    pub fn commit_empty_blocks(&mut self, storage: &mut StateStorage)
        requires
            old(self).wf(old(storage).spec_marker()),
            old(self).assembler is None,
        ensures
            final(self).wf(final(storage).spec_marker()),
            final(self).config == old(self).config,
            final(self).header_base == old(self).header_base,
            final(self).declared_lengths == old(self).declared_lengths,
            final(self).assembler is None,
            final(storage).spec_marker() == old(storage).spec_marker() + zero_run(
                old(self).declared_lengths@,
                (old(storage).spec_marker() - old(self).header_base) as nat,
            ),
            final(storage).spec_diffs().subrange(0, old(storage).spec_marker() as int) == old(
                storage,
            ).spec_diffs(),
            forall|b: int|
                old(storage).spec_marker() <= b < final(storage).spec_marker()
                    ==> (#[trigger] final(storage).spec_diffs()[b]).spec_len() == 0,
            zero_run(
                final(self).declared_lengths@,
                (final(storage).spec_marker() - final(self).header_base) as nat,
            ) == 0,
    {
        let ghost marker0 = old(storage).spec_marker();
        loop
            invariant
                self.wf(storage.spec_marker()),
                self.assembler is None,
                self.config == old(self).config,
                self.header_base == old(self).header_base,
                self.declared_lengths == old(self).declared_lengths,
                marker0 <= storage.spec_marker(),
                storage.spec_diffs().subrange(0, marker0 as int) == old(storage).spec_diffs(),
                forall|b: int|
                    marker0 <= b < storage.spec_marker() ==> (#[trigger] storage.spec_diffs()[b])
                        .spec_len() == 0,
                zero_run(self.declared_lengths@, (marker0 - self.header_base) as nat) == zero_run(
                    self.declared_lengths@,
                    (storage.spec_marker() - self.header_base) as nat,
                ) + (storage.spec_marker() - marker0),
            ensures
                zero_run(
                    self.declared_lengths@,
                    (storage.spec_marker() - self.header_base) as nat,
                ) == 0,
            decreases self.header_base + self.declared_lengths@.len() - storage.spec_marker(),
        {
            let marker = storage.state_marker();
            let header_count: u64 = self.declared_lengths.len() as u64;
            if marker.0 >= self.header_base + header_count {
                proof {
                    assert(zero_run(
                        self.declared_lengths@,
                        (storage.spec_marker() - self.header_base) as nat,
                    ) == 0);
                }
                break;
            }
            let index: usize = (marker.0 - self.header_base) as usize;
            if self.declared_lengths[index] != 0 {
                proof {
                    assert(zero_run(
                        self.declared_lengths@,
                        (storage.spec_marker() - self.header_base) as nat,
                    ) == 0);
                }
                break;
            }
            let ghost pre = storage.spec_diffs();
            storage.append_state_diff(marker, ThinStateDiff::empty());
            if let Some(window_end) = self.window_end {
                if marker.0 + 1 >= window_end {
                    self.window_end = None;
                }
            }
            proof {
                assert(storage.spec_diffs().subrange(0, marker0 as int) =~= pre.subrange(
                    0,
                    marker0 as int,
                ));
            }
        }
    }
}

/// The parts accepted so far for the block under assembly.
pub open spec fn pending_parts(engine: StateDiffSync) -> Seq<ThinStateDiff> {
    match engine.assembler {
        Some(a) => a.parts@,
        None => Seq::empty(),
    }
}

/// Whether a new part overlaps what the engine has accumulated for the block.
pub open spec fn part_conflicts_pending(engine: StateDiffSync, part: ThinStateDiff) -> bool {
    match engine.assembler {
        Some(a) => a.accumulated.conflicts(part),
        None => false,
    }
}

impl StateDiffSync {
    /// The declared diff length of the block at the marker.
    pub open spec fn declared_at(self, marker: nat) -> u64 {
        self.declared_lengths@[marker - self.header_base]
    }

    /// Feeds one item of the state-diff response stream into the engine.
    ///
    /// `Some(part)` is a chunk of the block at the storage marker: an entry-less
    /// part, a part overlapping the accumulated diff, and a part overshooting the
    /// header's declared length are each rejected with the corresponding error.
    /// The block is committed — the marker advances by one and the merged diff is
    /// stored — exactly when the lengths of the accepted parts sum to the
    /// declared length; otherwise storage does not change. `None` ends the
    /// query: mid-block it is a length violation listing the boundary lengths
    /// reached; between blocks it closes the window.
    pub fn on_state_diff_part(
        &mut self,
        storage: &mut StateStorage,
        part: Option<ThinStateDiff>,
    ) -> (r: Result<bool, P2PSyncError>)
        requires
            old(self).wf(old(storage).spec_marker()),
            part matches Some(p) ==> p.wf(),
            part is Some ==> old(self).window_end is Some,
            part is Some && old(self).assembler is None ==> zero_run(
                old(self).declared_lengths@,
                (old(storage).spec_marker() - old(self).header_base) as nat,
            ) == 0,
        ensures
            final(self).config == old(self).config,
            final(self).header_base == old(self).header_base,
            final(self).declared_lengths == old(self).declared_lengths,
            r matches Ok(_) ==> final(self).wf(final(storage).spec_marker()),
            // the marker advances exactly on a committed block, and then by one
            r == Ok::<bool, P2PSyncError>(true) ==> {
                &&& part matches Some(p)
                &&& final(storage).spec_marker() == old(storage).spec_marker() + 1
                &&& final(storage).spec_diffs().subrange(0, old(storage).spec_marker() as int)
                    == old(storage).spec_diffs()
                &&& ({
                    let diff = final(storage).spec_diffs()[old(storage).spec_marker() as int];
                    &&& diff.wf()
                    &&& diff.spec_len() == old(self).declared_at(old(storage).spec_marker())
                    &&& is_concat_of(diff, pending_parts(*old(self)).push(part->0))
                })
                &&& final(self).assembler is None
            },
            !(r == Ok::<bool, P2PSyncError>(true)) ==> *final(storage) == *old(storage),
            // a block commits exactly when its accepted parts' lengths sum to the
            // declared length
            (r == Ok::<bool, P2PSyncError>(true)) <==> (part matches Some(p) && p.spec_len() > 0
                && !part_conflicts_pending(*old(self), p) && sum_part_lengths(
                pending_parts(*old(self)).push(p),
            ) == old(self).declared_at(old(storage).spec_marker())),
            (match part {
                Some(p) => {
                    &&& (p.spec_len() == 0 ==> r == Err::<bool, P2PSyncError>(
                        P2PSyncError::EmptyStateDiffPart,
                    ))
                    &&& (p.spec_len() > 0 && part_conflicts_pending(*old(self), p) ==> r == Err::<
                        bool,
                        P2PSyncError,
                    >(P2PSyncError::ConflictingStateDiffParts))
                    &&& (p.spec_len() > 0 && !part_conflicts_pending(*old(self), p)
                        && sum_part_lengths(pending_parts(*old(self)).push(p)) > old(
                        self,
                    ).declared_at(old(storage).spec_marker()) ==> {
                        &&& r matches Err(P2PSyncError::WrongStateDiffLength {
                            expected_length,
                            possible_lengths,
                        }) && expected_length == old(self).declared_at(old(storage).spec_marker())
                            && possible_lengths@ == boundary_lengths_of(
                            pending_parts(*old(self)),
                        ).push(sum_part_lengths(pending_parts(*old(self)).push(p)) as u128)
                    })
                    &&& (p.spec_len() > 0 && !part_conflicts_pending(*old(self), p)
                        && sum_part_lengths(pending_parts(*old(self)).push(p)) < old(
                        self,
                    ).declared_at(old(storage).spec_marker()) ==> {
                        &&& r == Ok::<bool, P2PSyncError>(false)
                        &&& pending_parts(*final(self)) == pending_parts(*old(self)).push(p)
                        &&& final(self).window_end == old(self).window_end
                    })
                },
                None => {
                    &&& (match old(self).assembler {
                        Some(a) => {
                            &&& r matches Err(P2PSyncError::WrongStateDiffLength {
                                expected_length,
                                possible_lengths,
                            }) && expected_length == a.expected_length && possible_lengths@
                                == a.boundary_lengths@
                        },
                        None => r == Ok::<bool, P2PSyncError>(false) && final(self).window_end
                            is None && final(self).assembler is None,
                    })
                },
            }),
    {
        let marker = storage.state_marker();
        match part {
            Some(p) => {
                if self.assembler.is_none() {
                    proof {
                        let i = (marker.0 - self.header_base) as nat;
                        assert(i < self.declared_lengths@.len());
                        if self.declared_lengths@[i as int] == 0 {
                            assert(zero_run(self.declared_lengths@, i) >= 1);
                        }
                    }
                    let header_count: usize = self.declared_lengths.len();
                    proof {
                        assert(marker.0 - self.header_base < header_count);
                    }
                    let index: usize = (marker.0 - self.header_base) as usize;
                    let expected_length = self.declared_lengths[index];
                    self.assembler = Some(StateDiffAssembler::new(expected_length));
                }
                let mut assembler = match self.assembler.take() {
                    Some(a) => a,
                    None => {
                        proof {
                            assert(false);
                        }
                        StateDiffAssembler::new(1)
                    },
                };
                proof {
                    lemma_concat_parts_push(assembler.parts@, p);
                    assert(assembler.parts@ == pending_parts(*old(self)));
                    if old(self).assembler is None {
                        assert(assembler.accumulated.spec_len() == 0);
                        assert(!assembler.accumulated.conflicts(p));
                    }
                    assert(assembler.accumulated.conflicts(p) == part_conflicts_pending(
                        *old(self),
                        p,
                    ));
                }
                match assembler.add_part(p) {
                    Err(e) => Err(e),
                    Ok(None) => {
                        self.assembler = Some(assembler);
                        Ok(false)
                    },
                    Ok(Some(diff)) => {
                        let ghost pre = storage.spec_diffs();
                        storage.append_state_diff(marker, diff);
                        if let Some(window_end) = self.window_end {
                            if marker.0 + 1 >= window_end {
                                self.window_end = None;
                            }
                        }
                        proof {
                            assert(storage.spec_diffs().subrange(0, marker.0 as int) =~= pre);
                        }
                        Ok(true)
                    },
                }
            },
            None => {
                match self.assembler.take() {
                    Some(assembler) => {
                        let expected_length = assembler.expected_length;
                        let possible_lengths = assembler.into_boundary_lengths();
                        Err(P2PSyncError::WrongStateDiffLength { expected_length, possible_lengths })
                    },
                    None => {
                        self.window_end = None;
                        Ok(false)
                    },
                }
            },
        }
    }
}


/// Assembles a whole block from its parts, as the engine does part by part.
///
/// For parts that are each well-formed and non-empty, pairwise free of
/// overlap, and whose lengths sum to the block's declared length — exactly
/// what splitting a block's diff yields — every part is accepted and the
/// block's full diff comes back: field by field the concatenation of the
/// parts, as long as the declared length. Committing it through the storage
/// contract advances the marker from the block to its successor, once.
pub fn assemble_block(expected_length: u64, parts: Vec<ThinStateDiff>) -> (r: ThinStateDiff)
    requires
        expected_length > 0,
        forall|i: int| 0 <= i < parts@.len() ==> (#[trigger] parts@[i]).wf(),
        forall|i: int| 0 <= i < parts@.len() ==> (#[trigger] parts@[i]).spec_len() > 0,
        forall|i: int, j: int| 0 <= i < j < parts@.len() ==> !parts@[i].conflicts(parts@[j]),
        sum_part_lengths(parts@) == expected_length,
    ensures
        r.wf(),
        is_concat_of(r, parts@),
        r.spec_len() == expected_length,
{
    let ghost parts_view = parts@;
    let mut assembler = StateDiffAssembler::new(expected_length);
    let mut rest = parts;
    proof {
        assert(assembler.parts@ + rest@ =~= parts_view);
        if parts_view.len() == 0 {
            assert(sum_part_lengths(parts_view) == 0);
        }
    }
    loop
        invariant
            parts_view == parts@,
            expected_length > 0,
            assembler.wf(),
            assembler.expected_length == expected_length,
            parts_view == assembler.parts@ + rest@,
            rest@.len() > 0,
            forall|i: int| 0 <= i < parts_view.len() ==> (#[trigger] parts_view[i]).wf(),
            forall|i: int| 0 <= i < parts_view.len() ==> (#[trigger] parts_view[i]).spec_len() > 0,
            forall|i: int, j: int|
                0 <= i < j < parts_view.len() ==> !parts_view[i].conflicts(parts_view[j]),
            sum_part_lengths(parts_view) == expected_length,
        decreases rest@.len(),
    {
        let ghost rest0 = rest@;
        let ghost done = assembler.parts@;
        let part = rest.remove(0);
        proof {
            assert(rest0[0] == parts_view[done.len() as int]);
            lemma_sum_parts_concat(done, rest0);
            assert(rest0 =~= seq![part] + rest0.drop_first());
            lemma_sum_parts_concat(seq![part], rest0.drop_first());
            assert(seq![part].drop_last() =~= Seq::<ThinStateDiff>::empty());
            assert(seq![part].last() == part);
            assert(sum_part_lengths(Seq::<ThinStateDiff>::empty()) == 0);
            assert(sum_part_lengths(seq![part]) == part.spec_len());
            assert(assembler.current_length < assembler.expected_length);
            assert forall|k: int| 0 <= k < done.len() implies !(#[trigger] done[k]).conflicts(
                part,
            ) by {
                assert(done[k] == parts_view[k]);
            }
            lemma_concat_avoids_conflict(done, assembler.accumulated, part);
        }
        match assembler.add_part(part) {
            Err(_) => {
                proof {
                    assert(false);
                }
                return ThinStateDiff::empty();
            },
            Ok(Some(diff)) => {
                proof {
                    lemma_concat_parts_push(done, part);
                    assert(rest@ =~= rest0.drop_first());
                    lemma_sum_parts_concat(done.push(part), rest@);
                    assert(done.push(part) + rest@ =~= parts_view);
                    if rest@.len() > 0 {
                        assert(rest@ =~= seq![rest@[0]] + rest@.drop_first());
                        lemma_sum_parts_concat(seq![rest@[0]], rest@.drop_first());
                        assert(seq![rest@[0]].drop_last() =~= Seq::<ThinStateDiff>::empty());
                        assert(seq![rest@[0]].last() == rest@[0]);
                        assert(sum_part_lengths(Seq::<ThinStateDiff>::empty()) == 0);
                        assert(sum_part_lengths(seq![rest@[0]]) == rest@[0].spec_len());
                        assert(rest@[0] == parts_view[done.len() as int + 1]);
                        assert(false);
                    }
                    assert(done.push(part) =~= parts_view);
                }
                return diff;
            },
            Ok(None) => {
                proof {
                    assert(rest@ =~= rest0.drop_first());
                    if rest@.len() == 0 {
                        assert(done.push(part) =~= parts_view);
                        lemma_concat_parts_push(done, part);
                        assert(false);
                    }
                }
            },
        }
    }
}

/// If an assembly has accepted a sequence of parts, the block is complete —
/// ready to commit — exactly when the sum of the parts' lengths equals the
/// length the header declared.
pub proof fn lemma_accepted_parts_sum_iff_complete(assembler: StateDiffAssembler)
    requires
        assembler.wf(),
    ensures
        assembler.current_length == assembler.expected_length <==> sum_part_lengths(
            assembler.parts@,
        ) == assembler.expected_length,
{
}

} // verus!
