//! The layout of a timezone file, and what reading one gives: stated over
//! sequences of bytes, for the functions that read to be held to.

use crate::error::ReadError;
use crate::reader::{be_i32_at, be_int_at, be_u32_at};
use crate::timeline::{instants, lemma_stepwise_ascending, Timeline, Zone};
use vstd::prelude::*;
use vstd::utf8::{decode_utf8, valid_utf8};

verus! {

/// The bytes `TZif` stand at index `at`.
pub open spec fn has_magic(s: Seq<u8>, at: int) -> bool {
    s[at] == 0x54 && s[at + 1] == 0x5a && s[at + 2] == 0x69 && s[at + 3] == 0x66
}

/// The version bytes of the three generations of the format: NUL for
/// timestamps of four bytes, `'2'` and `'3'` for timestamps of eight.
pub open spec fn version_known(version: u8) -> bool {
    version == 0 || version == 0x32 || version == 0x33
}

/// `count` timestamps of `width` bytes take this many bytes.
pub open spec fn span(count: int, width: int) -> int {
    if width == 8 {
        8 * count
    } else {
        4 * count
    }
}

/// The first index from `from` on at which `s` holds `byte`, or the length
/// of `s` if there is none.
pub open spec fn find_byte(s: Seq<u8>, byte: u8, from: int) -> int
    decreases s.len() - from,
{
    if from < 0 || from >= s.len() {
        s.len() as int
    } else if s[from] == byte {
        from
    } else {
        find_byte(s, byte, from + 1)
    }
}

/// The six counts of a header.
pub struct Counts {
    pub isutcnt: int,
    pub isstdcnt: int,
    pub leapcnt: int,
    pub timecnt: int,
    pub typecnt: int,
    pub charcnt: int,
}

/// The six counts that stand at index `at`.
pub open spec fn counts_at(s: Seq<u8>, at: int) -> Counts {
    Counts {
        isutcnt: be_u32_at(s, at),
        isstdcnt: be_u32_at(s, at + 4),
        leapcnt: be_u32_at(s, at + 8),
        timecnt: be_u32_at(s, at + 12),
        typecnt: be_u32_at(s, at + 16),
        charcnt: be_u32_at(s, at + 20),
    }
}

impl Counts {
    /// There is a type record, and each kind of indicator comes once per
    /// type record or not at all.
    pub open spec fn consistent(self) -> bool {
        &&& self.typecnt != 0
        &&& (self.isstdcnt == 0 || self.isstdcnt == self.typecnt)
        &&& (self.isutcnt == 0 || self.isutcnt == self.typecnt)
    }

    /// Where, counted from the start of a data block, the type indices
    /// begin.
    pub open spec fn indices_at(self, width: int) -> int {
        span(self.timecnt, width)
    }

    /// Where the type records begin.
    pub open spec fn types_at(self, width: int) -> int {
        self.indices_at(width) + self.timecnt
    }

    /// Where the abbreviation pool begins.
    pub open spec fn pool_at(self, width: int) -> int {
        self.types_at(width) + 6 * self.typecnt
    }

    /// Where the leap entries begin.
    pub open spec fn leaps_at(self, width: int) -> int {
        self.pool_at(width) + self.charcnt
    }

    /// Where the indicators begin.
    pub open spec fn indicators_at(self, width: int) -> int {
        self.leaps_at(width) + span(self.leapcnt, width) + 4 * self.leapcnt
    }

    /// The length of a data block.
    pub open spec fn block_len(self, width: int) -> int {
        self.indicators_at(width) + self.isstdcnt + self.isutcnt
    }
}

/// The three tables whose entries are checked one after the other.
pub enum Table {
    Leaps,
    Types,
    Transitions,
}

/// A data block: the bytes it lies in, the index at which it starts, the
/// counts that govern it and the width of its timestamps.
pub struct Block {
    pub bytes: Seq<u8>,
    pub start: int,
    pub counts: Counts,
    pub width: int,
}

impl Block {
    /// The instant of transition `j`.
    pub open spec fn instant(self, j: int) -> i64 {
        be_int_at(self.bytes, self.start + span(j, self.width), self.width) as i64
    }

    /// The number of the type record that transition `j` switches to.
    pub open spec fn type_index(self, j: int) -> u8 {
        self.bytes[self.start + self.counts.indices_at(self.width) + j]
    }

    /// Where type record `t` stands.
    pub open spec fn type_at(self, t: int) -> int {
        self.start + self.counts.types_at(self.width) + 6 * t
    }

    /// The offset from UTC of type record `t`.
    pub open spec fn utoff(self, t: int) -> i32 {
        be_i32_at(self.bytes, self.type_at(t)) as i32
    }

    /// The daylight-saving flag of type record `t`.
    pub open spec fn dst_flag(self, t: int) -> u8 {
        self.bytes[self.type_at(t) + 4]
    }

    /// Where in the pool the name of type record `t` begins.
    pub open spec fn abbr_index(self, t: int) -> u8 {
        self.bytes[self.type_at(t) + 5]
    }

    /// The abbreviation pool.
    pub open spec fn pool(self) -> Seq<u8> {
        self.bytes.subrange(
            self.start + self.counts.pool_at(self.width),
            self.start + self.counts.leaps_at(self.width),
        )
    }

    /// Where in the pool the name of type record `t` ends: at the first NUL
    /// from its beginning on.
    pub open spec fn abbr_end(self, t: int) -> int {
        find_byte(self.pool(), 0, self.abbr_index(t) as int)
    }

    /// The bytes of the name of type record `t`.
    pub open spec fn abbr_bytes(self, t: int) -> Seq<u8> {
        self.pool().subrange(self.abbr_index(t) as int, self.abbr_end(t))
    }

    /// The name of type record `t` begins within the pool, a NUL ends it,
    /// and it is text by itself.
    pub open spec fn abbr_found(self, t: int) -> bool {
        &&& self.abbr_index(t) < self.counts.charcnt
        &&& self.abbr_end(t) < self.counts.charcnt
        &&& valid_utf8(self.abbr_bytes(t))
    }

    /// What type record `t` says.
    pub open spec fn zone(self, t: int) -> Zone {
        Zone {
            local_minus_utc: self.utoff(t),
            dst: self.dst_flag(t) == 1,
            name: decode_utf8(self.abbr_bytes(t)),
        }
    }

    /// Where leap entry `j` stands.
    pub open spec fn leap_at(self, j: int) -> int {
        self.start + self.counts.leaps_at(self.width) + span(j, self.width) + 4 * j
    }

    /// The instant of leap entry `j`.
    pub open spec fn leap_instant(self, j: int) -> i64 {
        be_int_at(self.bytes, self.leap_at(j), self.width) as i64
    }

    /// The total of leap seconds from leap entry `j` on.
    pub open spec fn leap_total(self, j: int) -> i32 {
        be_i32_at(self.bytes, self.leap_at(j) + self.width) as i32
    }

    /// The index after the last byte of the block.
    pub open spec fn end(self) -> int {
        self.start + self.counts.block_len(self.width)
    }

    /// The instant that transition `j` has to exceed: that of the transition
    /// before it, or the earliest instant there is.
    pub open spec fn instant_before(self, j: int) -> i64 {
        if j == 0 {
            i64::MIN
        } else {
            self.instant(j - 1)
        }
    }

    /// The number of entries of a table.
    pub open spec fn len(self, table: Table) -> int {
        match table {
            Table::Leaps => self.counts.leapcnt,
            Table::Types => self.counts.typecnt,
            Table::Transitions => self.counts.timecnt,
        }
    }

    /// What is wrong with entry `j` of a table, if anything.
    ///
    /// A leap entry may be cut off by the end of the bytes, or not be later
    /// than the one before it. A type record may hold a flag other than 0
    /// and 1, or point at no name. A transition may not be later than the
    /// one before it, or name a type record that is not there.
    pub open spec fn fault(self, table: Table, j: int) -> Option<ReadError> {
        match table {
            Table::Leaps => if self.bytes.len() < self.leap_at(j + 1) {
                Some(ReadError::UnexpectedEof)
            } else if j > 0 && self.leap_instant(j - 1) >= self.leap_instant(j) {
                Some(ReadError::UnsortedEntries)
            } else {
                None
            },
            Table::Types => if self.dst_flag(j) > 1 {
                Some(ReadError::InvalidDstFlag)
            } else if !self.abbr_found(j) {
                Some(ReadError::InvalidAbbreviationIndex)
            } else {
                None
            },
            Table::Transitions => if self.instant_before(j) >= self.instant(j) {
                Some(ReadError::UnsortedEntries)
            } else if self.type_index(j) >= self.counts.typecnt {
                Some(ReadError::InvalidTypeIndex)
            } else {
                None
            },
        }
    }

    /// What is wrong with the first entry from `j` on that has a fault.
    pub open spec fn first_fault(self, table: Table, j: int) -> Option<ReadError>
        decreases self.len(table) - j,
    {
        if j < 0 || j >= self.len(table) {
            None
        } else if self.fault(table, j) is Some {
            self.fault(table, j)
        } else {
            self.first_fault(table, j + 1)
        }
    }

    /// The transitions: one at the earliest instant there is, to the first
    /// type record, and then those of the file.
    pub open spec fn transitions(self) -> Seq<(i64, Zone)> {
        Seq::new(
            (self.counts.timecnt + 1) as nat,
            |j: int|
                if j == 0 {
                    (i64::MIN, self.zone(0))
                } else {
                    (self.instant(j - 1), self.zone(self.type_index(j - 1) as int))
                },
        )
    }

    /// The leap entries.
    pub open spec fn leap_transitions(self) -> Seq<(i64, i32)> {
        Seq::new(self.counts.leapcnt as nat, |j: int| (self.leap_instant(j), self.leap_total(j)))
    }

    /// The index of the newline that ends the TZ string.
    pub open spec fn rules_end(self) -> int {
        find_byte(self.bytes, 0x0a, self.end() + 1)
    }

    /// The bytes of the TZ string, between its two newlines.
    pub open spec fn rules_bytes(self) -> Seq<u8> {
        self.bytes.subrange(self.end() + 1, self.rules_end())
    }

    /// The rule for the time after the last transition, and the index after
    /// the last byte of the file.
    ///
    /// With timestamps of four bytes the file ends with the block and has no
    /// rule. With timestamps of eight bytes a TZ string follows, between two
    /// newlines; an empty one is no rule.
    pub open spec fn future_rules(self) -> Result<(Option<Seq<char>>, int), ReadError> {
        if self.width != 8 {
            Ok((None, self.end()))
        } else if self.bytes.len() < self.end() + 1 {
            Err(ReadError::UnexpectedEof)
        } else if self.bytes[self.end()] != 0x0a {
            Err(ReadError::MissingTzString)
        } else if self.rules_end() >= self.bytes.len() {
            Err(ReadError::UnexpectedEof)
        } else if self.rules_bytes().len() == 0 {
            Ok((None, self.rules_end() + 1))
        } else if !valid_utf8(self.rules_bytes()) {
            Err(ReadError::InvalidTzString)
        } else {
            Ok((Some(decode_utf8(self.rules_bytes())), self.rules_end() + 1))
        }
    }

    /// What reading the block and what follows it gives: the timeline and
    /// the index after the last byte of the file, or the first fault in the
    /// order in which the file is read and checked.
    ///
    /// Timestamps, type indices, type records and pool are read first, then
    /// the pool is checked; the leap entries are checked as they are read;
    /// the indicators are passed over and the TZ string is read; only then
    /// are the type records checked, and after them the transitions.
    pub open spec fn outcome(self) -> Result<(Timeline, int), ReadError> {
        if !self.counts.consistent() {
            Err(ReadError::InvalidHeader)
        } else if self.bytes.len() < self.start + self.counts.leaps_at(self.width) {
            Err(ReadError::UnexpectedEof)
        } else if !valid_utf8(self.pool()) {
            Err(ReadError::InvalidAbbreviationPool)
        } else if self.first_fault(Table::Leaps, 0) is Some {
            Err(self.first_fault(Table::Leaps, 0)->0)
        } else if self.bytes.len() < self.end() {
            Err(ReadError::UnexpectedEof)
        } else {
            match self.future_rules() {
                Err(e) => Err(e),
                Ok((rules, end)) => if self.first_fault(Table::Types, 0) is Some {
                    Err(self.first_fault(Table::Types, 0)->0)
                } else if self.first_fault(Table::Transitions, 0) is Some {
                    Err(self.first_fault(Table::Transitions, 0)->0)
                } else {
                    Ok(
                        (
                            Timeline {
                                transitions: self.transitions(),
                                leap_transitions: self.leap_transitions(),
                                future_rules: rules,
                            },
                            end,
                        ),
                    )
                },
            }
        }
    }
}

/// What the tag, the version byte and the fifteen reserved bytes at index
/// `at` give: the version, or the first fault. `first` is the version of the
/// first header where this is the second, which has to repeat it.
pub open spec fn preamble(s: Seq<u8>, at: int, first: Option<u8>) -> Result<u8, ReadError> {
    if s.len() < at + 4 {
        Err(ReadError::UnexpectedEof)
    } else if !has_magic(s, at) {
        Err(ReadError::InvalidMagic)
    } else if s.len() < at + 5 {
        Err(ReadError::UnexpectedEof)
    } else if !(match first {
        None => version_known(s[at + 4]),
        Some(version) => s[at + 4] == version,
    }) {
        Err(ReadError::InvalidVersion)
    } else if s.len() < at + 20 {
        Err(ReadError::UnexpectedEof)
    } else {
        Ok(s[at + 4])
    }
}

/// Where the counts stand that govern the data of the file that begins at
/// index `from`, and the width of its timestamps.
///
/// A file of version NUL has one header and timestamps of four bytes. A
/// later version repeats, after a data block in the old layout that is
/// passed over unread, header and data with timestamps of eight bytes.
pub open spec fn locate(s: Seq<u8>, from: int) -> Result<(int, int), ReadError> {
    match preamble(s, from, None) {
        Err(e) => Err(e),
        Ok(version) => if version == 0 {
            Ok((from + 20, 4))
        } else if s.len() < from + 44 {
            Err(ReadError::UnexpectedEof)
        } else {
            let second = from + 44 + counts_at(s, from + 20).block_len(4);
            if s.len() < second {
                Err(ReadError::UnexpectedEof)
            } else {
                match preamble(s, second, Some(version)) {
                    Err(e) => Err(e),
                    Ok(_) => Ok((second + 20, 8)),
                }
            }
        },
    }
}

/// What reading the file that begins at index `from` of `s` gives: the
/// timeline and the index after the last byte of the file, or the fault
/// that reading meets first.
pub open spec fn parse(s: Seq<u8>, from: int) -> Result<(Timeline, int), ReadError> {
    match locate(s, from) {
        Err(e) => Err(e),
        Ok((at, width)) => if s.len() < at + 24 {
            Err(ReadError::UnexpectedEof)
        } else {
            (Block { bytes: s, start: at + 24, counts: counts_at(s, at), width }).outcome()
        },
    }
}

/// Where no entry of a table from `from` on has a fault, none of them has.
pub proof fn lemma_no_first_fault(b: Block, table: Table, from: int, j: int)
    requires
        b.first_fault(table, from) is None,
        0 <= from <= j < b.len(table),
    ensures
        b.fault(table, j) is None,
    decreases j - from,
{
    if from < j {
        lemma_no_first_fault(b, table, from + 1, j);
    }
}

/// The timeline of a block that was read without a fault starts at the
/// earliest instant there is, and its transitions and its leap entries
/// ascend.
pub proof fn lemma_outcome_well_formed(b: Block)
    requires
        b.outcome() is Ok,
        b.counts.timecnt >= 0,
        b.counts.leapcnt >= 0,
    ensures
        b.outcome()->Ok_0.0.well_formed(),
{
    let timeline = b.outcome()->Ok_0.0;
    let keys = instants(timeline.transitions);
    assert forall|i: int| 0 <= i && i + 1 < keys.len() implies keys[i] < #[trigger] keys[i + 1] by {
        lemma_no_first_fault(b, Table::Transitions, 0, i);
    }
    lemma_stepwise_ascending(keys);
    let leaps = instants(timeline.leap_transitions);
    assert forall|i: int| 0 <= i && i + 1 < leaps.len() implies leaps[i] < #[trigger] leaps[i
        + 1] by {
        lemma_no_first_fault(b, Table::Leaps, 0, i + 1);
    }
    lemma_stepwise_ascending(leaps);
}

/// Every timeline that reading gives starts at the earliest instant there
/// is, and its transitions and its leap entries ascend.
pub proof fn lemma_parsed_well_formed(s: Seq<u8>, from: int)
    requires
        parse(s, from) is Ok,
    ensures
        parse(s, from)->Ok_0.0.well_formed(),
{
    let at = locate(s, from)->Ok_0.0;
    let width = locate(s, from)->Ok_0.1;
    let b = Block { bytes: s, start: at + 24, counts: counts_at(s, at), width };
    lemma_outcome_well_formed(b);
}

/// `find_byte` gives an index from `from` on and within `s`, or the length
/// of `s`.
pub proof fn lemma_find_byte_bounds(s: Seq<u8>, byte: u8, from: int)
    requires
        0 <= from <= s.len(),
    ensures
        from <= find_byte(s, byte, from) <= s.len(),
    decreases s.len() - from,
{
    if from < s.len() && s[from] != byte {
        lemma_find_byte_bounds(s, byte, from + 1);
    }
}

/// A file that was read takes up at least its header and ends within the
/// bytes it was read from.
pub proof fn lemma_parsed_end_in_bounds(s: Seq<u8>, from: int)
    requires
        0 <= from,
        parse(s, from) is Ok,
    ensures
        from + 44 <= parse(s, from)->Ok_0.1 <= s.len(),
{
    let at = locate(s, from)->Ok_0.0;
    let width = locate(s, from)->Ok_0.1;
    let b = Block { bytes: s, start: at + 24, counts: counts_at(s, at), width };
    if width == 8 {
        lemma_find_byte_bounds(s, 0x0a, b.end() + 1);
    }
}

} // verus!
