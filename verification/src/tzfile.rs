//! Zone records, and a timezone file read into memory: reading it, and
//! asking it for the zone and the leap seconds at an instant.

use crate::error::ReadError;
use crate::format::{
    counts_at, find_byte, locate, parse, preamble, span, Block, Counts, Table,
};
use crate::reader::{be_i32_at, be_int_at, Reader};
use crate::search::first_after;
use crate::timeline::{ascending, instants, lemma_scan_splits, Timeline, Zone};
use vstd::prelude::*;
use vstd::utf8::{decode_utf8, valid_utf8};

verus! {

/// A zone record: the offset from UTC in seconds, east positive, whether
/// daylight saving time is in force, and the abbreviated name.
#[derive(Debug, PartialEq, Eq)]
pub struct Timezone {
    pub local_minus_utc: i32,
    pub dst: bool,
    pub name: String,
}

impl View for Timezone {
    type V = Zone;

    open spec fn view(&self) -> Zone {
        Zone { local_minus_utc: self.local_minus_utc, dst: self.dst, name: self.name@ }
    }
}

impl Clone for Timezone {
    fn clone(&self) -> (copy: Timezone)
        ensures
            copy@ == self@,
    {
        Timezone { local_minus_utc: self.local_minus_utc, dst: self.dst, name: self.name.clone() }
    }
}

/// What a table of transitions says.
pub open spec fn zone_entries(entries: Seq<(i64, Timezone)>) -> Seq<(i64, Zone)> {
    Seq::new(entries.len(), |i: int| (entries[i].0, entries[i].1@))
}

/// What an optional text says.
pub open spec fn text_of(text: Option<String>) -> Option<Seq<char>> {
    match text {
        Some(t) => Some(t@),
        None => None,
    }
}

/// A timezone file that was read: its transitions, its leap seconds and the
/// rule for the time after the last transition.
#[derive(Debug)]
pub struct TzFile {
    transitions: Vec<(i64, Timezone)>,
    leap_transitions: Vec<(i64, i32)>,
    future_rules: Option<String>,
}

impl View for TzFile {
    type V = Timeline;

    closed spec fn view(&self) -> Timeline {
        Timeline {
            transitions: zone_entries(self.transitions@),
            leap_transitions: self.leap_transitions@,
            future_rules: text_of(self.future_rules),
        }
    }
}

/// Calls `String::from_utf8`.
///
/// Taken on trust from the documentation of the standard library, and not
/// proved: the call succeeds on well-formed UTF-8 and on nothing else, and
/// the text that it then gives is the one that the bytes encode.
#[verifier::external_body]
fn text_from_utf8(bytes: Vec<u8>) -> (text: Option<String>)
    ensures
        match text {
            Some(t) => valid_utf8(bytes@) && t@ == decode_utf8(bytes@),
            None => !valid_utf8(bytes@),
        },
{
    match String::from_utf8(bytes) {
        Ok(t) => Some(t),
        Err(_) => None,
    }
}

/// The six counts of a header as they were read.
struct Header {
    isutcnt: u32,
    isstdcnt: u32,
    leapcnt: u32,
    timecnt: u32,
    typecnt: u32,
    charcnt: u32,
}

impl View for Header {
    type V = Counts;

    closed spec fn view(&self) -> Counts {
        Counts {
            isutcnt: self.isutcnt as int,
            isstdcnt: self.isstdcnt as int,
            leapcnt: self.leapcnt as int,
            timecnt: self.timecnt as int,
            typecnt: self.typecnt as int,
            charcnt: self.charcnt as int,
        }
    }
}

impl Header {
    fn consistent(&self) -> (b: bool)
        ensures
            b == self@.consistent(),
    {
        self.typecnt != 0 && (self.isstdcnt == 0 || self.isstdcnt == self.typecnt) && (self.isutcnt
            == 0 || self.isutcnt == self.typecnt)
    }

    /// The length of the data block that these counts describe, with
    /// timestamps of four bytes.
    fn legacy_block_len(&self) -> (n: u64)
        ensures
            n == self@.block_len(4),
    {
        self.timecnt as u64 * 5 + self.typecnt as u64 * 6 + self.charcnt as u64 + self.leapcnt as u64
            * 8 + self.isutcnt as u64 + self.isstdcnt as u64
    }
}

/// Reads tag, version and reserved bytes.
fn read_preamble(r: &mut Reader, first: Option<u8>) -> (res: Result<u8, ReadError>)
    ensures
        final(r).source() == old(r).source(),
        res == preamble(old(r).source(), old(r).offset(), first),
        res is Ok ==> final(r).offset() == old(r).offset() + 20,
{
    let magic = r.read_be_u32()?;
    if magic != 0x545a6966 {
        return Err(ReadError::InvalidMagic);
    }
    let version = r.read_u8()?;
    let accepted = match first {
        None => version == 0 || version == 0x32 || version == 0x33,
        Some(v) => version == v,
    };
    if !accepted {
        return Err(ReadError::InvalidVersion);
    }
    r.skip(15)?;
    Ok(version)
}

/// Reads the six counts.
fn read_counts(r: &mut Reader) -> (res: Result<Header, ReadError>)
    ensures
        final(r).source() == old(r).source(),
        match res {
            Ok(header) => old(r).has(24) && final(r).offset() == old(r).offset() + 24 && header@
                == counts_at(old(r).source(), old(r).offset()),
            Err(e) => !old(r).has(24) && e == ReadError::UnexpectedEof,
        },
{
    let isutcnt = r.read_be_u32()?;
    let isstdcnt = r.read_be_u32()?;
    let leapcnt = r.read_be_u32()?;
    let timecnt = r.read_be_u32()?;
    let typecnt = r.read_be_u32()?;
    let charcnt = r.read_be_u32()?;
    Ok(Header { isutcnt, isstdcnt, leapcnt, timecnt, typecnt, charcnt })
}

/// Finds the counts that govern the data: reads the header and, in a file
/// of a later version, passes over the data in the old layout and reads the
/// second header.
fn read_headers(r: &mut Reader) -> (res: Result<usize, ReadError>)
    ensures
        final(r).source() == old(r).source(),
        match res {
            Ok(width) => locate(old(r).source(), old(r).offset()) == Ok::<(int, int), ReadError>(
                (final(r).offset(), width as int),
            ),
            Err(e) => locate(old(r).source(), old(r).offset()) == Err::<(int, int), ReadError>(e),
        },
{
    let version = read_preamble(r, None)?;
    if version == 0 {
        return Ok(4);
    }
    let legacy = read_counts(r)?;
    r.skip(legacy.legacy_block_len())?;
    let _ = read_preamble(r, Some(version))?;
    Ok(8)
}

/// A type record as it was read.
struct RawType {
    utoff: i32,
    dst_flag: u8,
    abbr_index: u8,
}

/// Reads `count` timestamps of `width` bytes.
fn read_instants(r: &mut Reader, count: u32, width: usize) -> (res: Result<Vec<i64>, ReadError>)
    requires
        width == 4 || width == 8,
    ensures
        final(r).source() == old(r).source(),
        match res {
            Ok(v) => {
                &&& old(r).has(span(count as int, width as int))
                &&& final(r).offset() == old(r).offset() + span(count as int, width as int)
                &&& v@.len() == count
                &&& forall|j: int|
                    0 <= j < count ==> #[trigger] v@[j] == be_int_at(
                        old(r).source(),
                        old(r).offset() + span(j, width as int),
                        width as int,
                    )
            },
            Err(e) => e == ReadError::UnexpectedEof && !old(r).has(
                span(count as int, width as int),
            ),
        },
{
    let ghost s = r.source();
    let ghost from = r.offset();
    let mut v: Vec<i64> = Vec::new();
    let mut i: u32 = 0;
    while i < count
        invariant
            width == 4 || width == 8,
            i <= count,
            s == old(r).source(),
            from == old(r).offset(),
            r.source() == s,
            r.offset() == from + span(i as int, width as int),
            v@.len() == i,
            forall|j: int|
                0 <= j < i ==> #[trigger] v@[j] == be_int_at(
                    s,
                    from + span(j, width as int),
                    width as int,
                ),
        decreases count - i,
    {
        let instant = r.read_be_int_n(width)?;
        v.push(instant);
        i = i + 1;
    }
    proof {
        use_type_invariant(&*r);
    }
    Ok(v)
}

/// Reads `count` type records.
fn read_type_records(r: &mut Reader, count: u32) -> (res: Result<Vec<RawType>, ReadError>)
    ensures
        final(r).source() == old(r).source(),
        match res {
            Ok(v) => {
                &&& old(r).has(6 * count)
                &&& final(r).offset() == old(r).offset() + 6 * count
                &&& v@.len() == count
                &&& forall|t: int|
                    0 <= t < count ==> {
                        &&& (#[trigger] v@[t]).utoff == be_i32_at(
                            old(r).source(),
                            old(r).offset() + 6 * t,
                        )
                        &&& v@[t].dst_flag == old(r).source()[old(r).offset() + 6 * t + 4]
                        &&& v@[t].abbr_index == old(r).source()[old(r).offset() + 6 * t + 5]
                    }
            },
            Err(e) => e == ReadError::UnexpectedEof && !old(r).has(6 * count),
        },
{
    let ghost s = r.source();
    let ghost from = r.offset();
    let mut v: Vec<RawType> = Vec::new();
    let mut i: u32 = 0;
    while i < count
        invariant
            i <= count,
            s == old(r).source(),
            from == old(r).offset(),
            r.source() == s,
            r.offset() == from + 6 * i,
            v@.len() == i,
            forall|t: int|
                0 <= t < i ==> {
                    &&& (#[trigger] v@[t]).utoff == be_i32_at(s, from + 6 * t)
                    &&& v@[t].dst_flag == s[from + 6 * t + 4]
                    &&& v@[t].abbr_index == s[from + 6 * t + 5]
                },
        decreases count - i,
    {
        let utoff = r.read_be_i32()?;
        let dst_flag = r.read_u8()?;
        let abbr_index = r.read_u8()?;
        v.push(RawType { utoff, dst_flag, abbr_index });
        i = i + 1;
    }
    proof {
        use_type_invariant(&*r);
    }
    Ok(v)
}

/// What stands before the leap entries, as it was read.
struct Tables {
    times: Vec<i64>,
    indices: Vec<u8>,
    raw: Vec<RawType>,
    pool: Vec<u8>,
}

impl Tables {
    /// These are the tables of `b`.
    spec fn are_of(&self, b: Block) -> bool {
        &&& self.times@.len() == b.counts.timecnt
        &&& self.indices@.len() == b.counts.timecnt
        &&& self.raw@.len() == b.counts.typecnt
        &&& self.pool@ == b.pool()
        &&& self.pool@.len() == b.counts.charcnt
        &&& forall|j: int| 0 <= j < self.times@.len() ==> #[trigger] self.times@[j] == b.instant(j)
        &&& forall|j: int|
            0 <= j < self.indices@.len() ==> #[trigger] self.indices@[j] == b.type_index(j)
        &&& forall|t: int|
            0 <= t < self.raw@.len() ==> {
                &&& (#[trigger] self.raw@[t]).utoff == b.utoff(t)
                &&& self.raw@[t].dst_flag == b.dst_flag(t)
                &&& self.raw@[t].abbr_index == b.abbr_index(t)
            }
    }
}

/// Reads timestamps, type indices, type records and pool.
fn read_tables(r: &mut Reader, header: &Header, width: usize, Ghost(b): Ghost<Block>) -> (res:
    Result<Tables, ReadError>)
    requires
        old(r).source() == b.bytes,
        old(r).offset() == b.start,
        header@ == b.counts,
        width == b.width,
        width == 4 || width == 8,
    ensures
        final(r).source() == old(r).source(),
        match res {
            Ok(tables) => {
                &&& tables.are_of(b)
                &&& b.bytes.len() >= b.leap_at(0)
                &&& final(r).offset() == b.leap_at(0)
            },
            Err(e) => e == ReadError::UnexpectedEof && b.bytes.len() < b.leap_at(0),
        },
{
    proof {
        use_type_invariant(&*r);
    }
    let times = read_instants(r, header.timecnt, width)?;
    let indices = r.read_exact(header.timecnt as usize)?;
    let raw = read_type_records(r, header.typecnt)?;
    let pool = r.read_exact(header.charcnt as usize)?;
    Ok(Tables { times, indices, raw, pool })
}

/// Reads the leap entries, each of which has to be later than the one
/// before it.
fn read_leaps(r: &mut Reader, count: u32, width: usize, Ghost(b): Ghost<Block>) -> (res: Result<
    Vec<(i64, i32)>,
    ReadError,
>)
    requires
        old(r).source() == b.bytes,
        old(r).offset() == b.leap_at(0),
        count == b.counts.leapcnt,
        width == b.width,
        width == 4 || width == 8,
    ensures
        final(r).source() == old(r).source(),
        match res {
            Ok(v) => {
                &&& b.first_fault(Table::Leaps, 0) is None
                &&& v@ == b.leap_transitions()
                &&& ascending(instants(v@))
                &&& final(r).offset() == b.leap_at(count as int)
            },
            Err(e) => b.first_fault(Table::Leaps, 0) == Some(e),
        },
{
    let mut v: Vec<(i64, i32)> = Vec::new();
    let mut i: u32 = 0;
    while i < count
        invariant
            old(r).source() == b.bytes,
            r.source() == b.bytes,
            count == b.counts.leapcnt,
            width == b.width,
            width == 4 || width == 8,
            i <= count,
            r.offset() == b.leap_at(i as int),
            b.first_fault(Table::Leaps, 0) == b.first_fault(Table::Leaps, i as int),
            v@.len() == i,
            forall|j: int|
                0 <= j < i ==> #[trigger] v@[j] == (b.leap_instant(j), b.leap_total(j)),
            ascending(instants(v@)),
        decreases count - i,
    {
        let since = r.read_be_int_n(width)?;
        let total = r.read_be_i32()?;
        if i > 0 && v[i as usize - 1].0 >= since {
            return Err(ReadError::UnsortedEntries);
        }
        proof {
            let before = v@;
            let after = v@.push((since, total));
            assert forall|x: int, y: int| 0 <= x < y < after.len() implies instants(after)[x]
                < instants(after)[y] by {
                if y < i {
                    assert(instants(before)[x] < instants(before)[y]);
                } else if x < i - 1 {
                    assert(instants(before)[x] < instants(before)[i - 1]);
                }
            }
        }
        v.push((since, total));
        i = i + 1;
    }
    Ok(v)
}

/// Reads the TZ string that follows a data block with timestamps of eight
/// bytes.
fn read_rules(r: &mut Reader, width: usize, Ghost(b): Ghost<Block>) -> (res: Result<
    Option<String>,
    ReadError,
>)
    requires
        old(r).source() == b.bytes,
        old(r).offset() == b.end(),
        width == b.width,
    ensures
        final(r).source() == old(r).source(),
        match res {
            Ok(rules) => b.future_rules() == Ok::<(Option<Seq<char>>, int), ReadError>(
                (text_of(rules), final(r).offset()),
            ),
            Err(e) => b.future_rules() == Err::<(Option<Seq<char>>, int), ReadError>(e),
        },
{
    proof {
        use_type_invariant(&*r);
    }
    if width != 8 {
        return Ok(None);
    }
    let opening = r.read_u8()?;
    if opening != 0x0a {
        return Err(ReadError::MissingTzString);
    }
    let mut bytes: Vec<u8> = Vec::new();
    loop
        invariant
            old(r).source() == b.bytes,
            r.source() == b.bytes,
            b.width == 8,
            0 <= b.end(),
            b.end() + 1 <= r.offset() <= b.bytes.len(),
            b.bytes[b.end()] == 0x0a,
            bytes@ == b.bytes.subrange(b.end() + 1, r.offset()),
            b.rules_end() == find_byte(b.bytes, 0x0a, r.offset()),
        decreases b.bytes.len() - r.offset(),
    {
        let byte = r.read_u8()?;
        if byte == 0x0a {
            if bytes.len() == 0 {
                return Ok(None);
            }
            return match text_from_utf8(bytes) {
                Some(text) => Ok(Some(text)),
                None => Err(ReadError::InvalidTzString),
            };
        }
        bytes.push(byte);
    }
}

/// A copy of the bytes from index `from` up to index `to`.
fn copy_of(bytes: &Vec<u8>, from: usize, to: usize) -> (copy: Vec<u8>)
    requires
        from <= to <= bytes@.len(),
    ensures
        copy@ == bytes@.subrange(from as int, to as int),
{
    let mut copy: Vec<u8> = Vec::new();
    let mut i: usize = from;
    while i < to
        invariant
            from <= i <= to <= bytes@.len(),
            copy@ == bytes@.subrange(from as int, i as int),
        decreases to - i,
    {
        copy.push(bytes[i]);
        i = i + 1;
    }
    copy
}

/// Checks the type records and looks up their names in the pool.
fn resolve_zones(raw: &Vec<RawType>, pool: &Vec<u8>, Ghost(b): Ghost<Block>) -> (res: Result<
    Vec<Timezone>,
    ReadError,
>)
    requires
        raw@.len() == b.counts.typecnt,
        forall|t: int|
            0 <= t < raw@.len() ==> {
                &&& (#[trigger] raw@[t]).utoff == b.utoff(t)
                &&& raw@[t].dst_flag == b.dst_flag(t)
                &&& raw@[t].abbr_index == b.abbr_index(t)
            },
        pool@ == b.pool(),
        pool@.len() == b.counts.charcnt,
    ensures
        match res {
            Ok(zones) => {
                &&& b.first_fault(Table::Types, 0) is None
                &&& zones@.len() == b.counts.typecnt
                &&& forall|t: int| 0 <= t < zones@.len() ==> (#[trigger] zones@[t])@ == b.zone(t)
            },
            Err(e) => b.first_fault(Table::Types, 0) == Some(e),
        },
{
    let mut zones: Vec<Timezone> = Vec::new();
    let mut t: usize = 0;
    while t < raw.len()
        invariant
            raw@.len() == b.counts.typecnt,
            forall|t: int|
                0 <= t < raw@.len() ==> {
                    &&& (#[trigger] raw@[t]).utoff == b.utoff(t)
                    &&& raw@[t].dst_flag == b.dst_flag(t)
                    &&& raw@[t].abbr_index == b.abbr_index(t)
                },
            pool@ == b.pool(),
            pool@.len() == b.counts.charcnt,
            t <= raw@.len(),
            b.first_fault(Table::Types, 0) == b.first_fault(Table::Types, t as int),
            zones@.len() == t,
            forall|k: int| 0 <= k < t ==> (#[trigger] zones@[k])@ == b.zone(k),
        decreases raw@.len() - t,
    {
        let record = &raw[t];
        let dst = match record.dst_flag {
            0 => false,
            1 => true,
            _ => { return Err(ReadError::InvalidDstFlag); },
        };
        let begin = record.abbr_index as usize;
        if begin >= pool.len() {
            return Err(ReadError::InvalidAbbreviationIndex);
        }
        let mut end: usize = begin;
        while end < pool.len() && pool[end] != 0
            invariant
                begin <= end <= pool@.len(),
                find_byte(pool@, 0, begin as int) == find_byte(pool@, 0, end as int),
            decreases pool@.len() - end,
        {
            end = end + 1;
        }
        if end >= pool.len() {
            return Err(ReadError::InvalidAbbreviationIndex);
        }
        let name = match text_from_utf8(copy_of(pool, begin, end)) {
            Some(name) => name,
            None => { return Err(ReadError::InvalidAbbreviationIndex); },
        };
        zones.push(Timezone { local_minus_utc: record.utoff, dst, name });
        t = t + 1;
    }
    Ok(zones)
}

/// Puts the transitions together: one at the earliest instant there is, to
/// the first type record, then those of the file, each of which has to be
/// later than the one before it.
fn assemble(times: &Vec<i64>, indices: &Vec<u8>, zones: &Vec<Timezone>, Ghost(b): Ghost<Block>) -> (res:
    Result<Vec<(i64, Timezone)>, ReadError>)
    requires
        times@.len() == b.counts.timecnt,
        indices@.len() == b.counts.timecnt,
        zones@.len() == b.counts.typecnt,
        b.counts.typecnt >= 1,
        forall|j: int| 0 <= j < times@.len() ==> #[trigger] times@[j] == b.instant(j),
        forall|j: int| 0 <= j < indices@.len() ==> #[trigger] indices@[j] == b.type_index(j),
        forall|t: int| 0 <= t < zones@.len() ==> (#[trigger] zones@[t])@ == b.zone(t),
    ensures
        match res {
            Ok(v) => {
                &&& b.first_fault(Table::Transitions, 0) is None
                &&& zone_entries(v@) == b.transitions()
                &&& ascending(instants(zone_entries(v@)))
            },
            Err(e) => b.first_fault(Table::Transitions, 0) == Some(e),
        },
{
    let mut v: Vec<(i64, Timezone)> = Vec::new();
    v.push((i64::MIN, zones[0].clone()));
    let mut j: usize = 0;
    while j < times.len()
        invariant
            times@.len() == b.counts.timecnt,
            indices@.len() == b.counts.timecnt,
            zones@.len() == b.counts.typecnt,
            forall|j: int| 0 <= j < times@.len() ==> #[trigger] times@[j] == b.instant(j),
            forall|j: int| 0 <= j < indices@.len() ==> #[trigger] indices@[j] == b.type_index(j),
            forall|t: int| 0 <= t < zones@.len() ==> (#[trigger] zones@[t])@ == b.zone(t),
            j <= times@.len(),
            b.first_fault(Table::Transitions, 0) == b.first_fault(Table::Transitions, j as int),
            v@.len() == j + 1,
            forall|k: int|
                0 <= k <= j ==> (#[trigger] v@[k]).0 == b.transitions()[k].0 && v@[k].1@
                    == b.transitions()[k].1,
            ascending(instants(zone_entries(v@))),
        decreases times@.len() - j,
    {
        let instant = times[j];
        if v[j].0 >= instant {
            return Err(ReadError::UnsortedEntries);
        }
        let index = indices[j] as usize;
        if index >= zones.len() {
            return Err(ReadError::InvalidTypeIndex);
        }
        let zone = zones[index].clone();
        proof {
            let before = zone_entries(v@);
            let after = zone_entries(v@.push((instant, zone)));
            assert forall|x: int, y: int| 0 <= x < y < after.len() implies instants(after)[x]
                < instants(after)[y] by {
                if y <= j {
                    assert(instants(before)[x] < instants(before)[y]);
                } else if x < j {
                    assert(instants(before)[x] < instants(before)[j as int]);
                }
            }
        }
        v.push((instant, zone));
        j = j + 1;
    }
    Ok(v)
}

impl Clone for TzFile {
    fn clone(&self) -> (copy: TzFile)
        ensures
            copy@ == self@,
    {
        proof {
            use_type_invariant(self);
        }
        let mut transitions: Vec<(i64, Timezone)> = Vec::new();
        let mut i: usize = 0;
        while i < self.transitions.len()
            invariant
                i <= self.transitions@.len(),
                transitions@.len() == i,
                forall|k: int|
                    0 <= k < i ==> (#[trigger] transitions@[k]).0 == self.transitions@[k].0
                        && transitions@[k].1@ == self.transitions@[k].1@,
            decreases self.transitions@.len() - i,
        {
            let entry = &self.transitions[i];
            transitions.push((entry.0, entry.1.clone()));
            i = i + 1;
        }
        assert(zone_entries(transitions@) =~= zone_entries(self.transitions@));
        let mut leap_transitions: Vec<(i64, i32)> = Vec::new();
        let mut j: usize = 0;
        while j < self.leap_transitions.len()
            invariant
                j <= self.leap_transitions@.len(),
                leap_transitions@ == self.leap_transitions@.take(j as int),
            decreases self.leap_transitions@.len() - j,
        {
            leap_transitions.push(self.leap_transitions[j]);
            j = j + 1;
        }
        assert(leap_transitions@ =~= self.leap_transitions@);
        let future_rules = match &self.future_rules {
            Some(text) => Some(text.clone()),
            None => None,
        };
        TzFile { transitions, leap_transitions, future_rules }
    }
}

impl TzFile {
    #[verifier::type_invariant]
    spec fn well_formed(&self) -> bool {
        self@.well_formed()
    }

    /// Reads a timezone file from `r`.
    ///
    /// The outcome is that of `parse` on the bytes of `r` from its position
    /// on. After success `r` stands behind the last byte of the file; after
    /// a failure it stands where it stood.
    pub fn read(r: &mut Reader) -> (res: Result<TzFile, ReadError>)
        ensures
            final(r).source() == old(r).source(),
            match res {
                Ok(file) => parse(old(r).source(), old(r).offset()) == Ok::<
                    (Timeline, int),
                    ReadError,
                >((file@, final(r).offset())) && file@.well_formed(),
                Err(e) => parse(old(r).source(), old(r).offset()) == Err::<
                    (Timeline, int),
                    ReadError,
                >(e) && final(r).offset() == old(r).offset(),
            },
    {
        let start = r.position();
        match Self::read_from(r) {
            Ok(file) => {
                proof {
                    use_type_invariant(&file);
                }
                Ok(file)
            },
            Err(e) => {
                r.restore(start);
                Err(e)
            },
        }
    }

    /// Reads a timezone file from `r`, which stays where the fault was met
    /// if there is one.
    fn read_from(r: &mut Reader) -> (res: Result<TzFile, ReadError>)
        ensures
            final(r).source() == old(r).source(),
            match res {
                Ok(file) => parse(old(r).source(), old(r).offset()) == Ok::<
                    (Timeline, int),
                    ReadError,
                >((file@, final(r).offset())),
                Err(e) => parse(old(r).source(), old(r).offset()) == Err::<
                    (Timeline, int),
                    ReadError,
                >(e),
            },
    {
        let ghost s = r.source();
        let width = read_headers(r)?;
        let ghost at = r.offset();
        let header = read_counts(r)?;
        let ghost b = Block { bytes: s, start: at + 24, counts: header@, width: width as int };
        Self::read_block(r, &header, width, Ghost(b))
    }

    /// Reads the data that follow the counts, and what follows the data.
    fn read_block(r: &mut Reader, header: &Header, width: usize, Ghost(b): Ghost<Block>) -> (res:
        Result<TzFile, ReadError>)
        requires
            old(r).source() == b.bytes,
            old(r).offset() == b.start,
            header@ == b.counts,
            width == b.width,
            width == 4 || width == 8,
        ensures
            final(r).source() == old(r).source(),
            match res {
                Ok(file) => b.outcome() == Ok::<(Timeline, int), ReadError>(
                    (file@, final(r).offset()),
                ),
                Err(e) => b.outcome() == Err::<(Timeline, int), ReadError>(e),
            },
    {
        if !header.consistent() {
            return Err(ReadError::InvalidHeader);
        }
        let tables = read_tables(r, header, width, Ghost(b))?;
        let pool = copy_of(&tables.pool, 0, tables.pool.len());
        assert(pool@ =~= b.pool());
        if text_from_utf8(pool).is_none() {
            return Err(ReadError::InvalidAbbreviationPool);
        }
        let leap_transitions = read_leaps(r, header.leapcnt, width, Ghost(b))?;
        r.skip(header.isstdcnt as u64)?;
        r.skip(header.isutcnt as u64)?;
        let future_rules = read_rules(r, width, Ghost(b))?;
        let zones = resolve_zones(&tables.raw, &tables.pool, Ghost(b))?;
        let transitions = assemble(&tables.times, &tables.indices, &zones, Ghost(b))?;
        Ok(TzFile { transitions, leap_transitions, future_rules })
    }

    /// The transitions in ascending order, the first of them at the earliest
    /// instant there is.
    pub fn transitions(&self) -> (entries: &[(i64, Timezone)])
        ensures
            zone_entries(entries@) == self@.transitions,
            entries@.len() >= 1,
            entries@[0].0 == i64::MIN,
            ascending(instants(entries@)),
            self@.well_formed(),
    {
        proof {
            use_type_invariant(self);
            assert(instants(self.transitions@) =~= instants(self@.transitions));
        }
        self.transitions.as_slice()
    }

    /// The leap entries in ascending order: the instant from which a total
    /// holds, and the total.
    pub fn leap_transitions(&self) -> (entries: &[(i64, i32)])
        ensures
            entries@ == self@.leap_transitions,
            ascending(instants(entries@)),
            self@.well_formed(),
    {
        proof {
            use_type_invariant(self);
        }
        self.leap_transitions.as_slice()
    }

    /// The rule for the time after the last transition, as the file holds
    /// it, if it holds one.
    pub fn future_rules(&self) -> (rules: Option<&str>)
        ensures
            match rules {
                Some(text) => self@.future_rules == Some(text@),
                None => self@.future_rules is None,
            },
    {
        match &self.future_rules {
            Some(text) => Some(text.as_str()),
            None => None,
        }
    }

    /// The zone in force at `at`: that of the last transition at or before
    /// `at`. The first transition, at the earliest instant there is, is at
    /// or before every instant.
    pub fn timezone_at(&self, at: i64) -> (zone: &Timezone)
        ensures
            zone@ == self@.zone_at(at),
    {
        proof {
            use_type_invariant(self);
        }
        let transitions = self.transitions.as_slice();
        assert(instants(transitions@) =~= instants(self@.transitions));
        let next = first_after(transitions, at);
        assert(next > 0) by {
            lemma_scan_splits(instants(transitions@), at, true, 0);
        }
        &transitions[next - 1].1
    }

    /// The leap seconds counted by `at`: the total of the last leap entry at
    /// or before `at`, or 0 if there is none.
    pub fn total_leap_seconds_at(&self, at: i64) -> (total: i32)
        ensures
            total == self@.leap_seconds_at(at),
    {
        proof {
            use_type_invariant(self);
        }
        let transitions = self.leap_transitions.as_slice();
        let next = first_after(transitions, at);
        if next > 0 {
            transitions[next - 1].1
        } else {
            0
        }
    }
}

} // verus!
