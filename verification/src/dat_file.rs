//! The snapshot: everything a node knows, as one byte string that can be
//! kept in a file and read back.
//!
//! A snapshot is a header of two `u32`, the format version and the number
//! of sections, followed by seven sections, one for each kind of rumor in
//! the order of their tags, membership first. A section is the number of
//! its records followed by the records; a record is a length-prefixed
//! datagram, exactly as it would travel on the wire.

use vstd::prelude::*;
use vstd::bytes::*;
use crate::envelope::{lemma_decode_encode, spec_decode, RumorEnvelope, RumorEnvelopeView};
use crate::error::Error;
use crate::member::{Health, Membership, MembershipView};
use crate::member_list::{
    lemma_merge_all_restores, spec_depart, spec_members_behind, spec_merge_all, spec_record,
    Members,
};
use crate::rumor::{Rumor, RumorType, RumorView};
use crate::server::{
    spec_held, spec_restore_all, spec_stores_kept, spec_view_sound, Server, ServerView,
};
use crate::store::{
    lemma_insert_all_restores, spec_behind, spec_identity, spec_insert_all, spec_lists,
    spec_views, Identity,
};
use crate::wire::{
    lemma_int_widths, lemma_prefixed_at_written, lemma_u32_at_written, put_prefixed, put_u32,
    read_prefixed, read_u32, spec_prefixed, spec_prefixed_at, spec_u32_at, MAX_LEN,
};

verus! {

/// The format version that this library writes and reads.
pub const SNAPSHOT_VERSION: u32 = 1;

/// The number of sections: one for each kind of rumor.
pub const SECTION_COUNT: u32 = 7;

/// Bytes in front of the first section.
pub const SNAPSHOT_HEADER_LEN: usize = 8;

/// The kind of rumor that the section at `index` holds.
pub open spec fn spec_section_kind(index: int) -> RumorType {
    RumorType::spec_from_tag(index + 1).unwrap()
}

/// The envelope in which a rumor is kept: from the node that wrote the
/// snapshot.
pub open spec fn spec_kept(me: Seq<u8>, r: RumorView) -> RumorEnvelopeView {
    RumorEnvelopeView { from_id: me, kind: r }
}

/// Whether a rumor can be kept: it has a written form, and that form's
/// length fits a length prefix.
#[verifier::opaque]
pub open spec fn spec_storable(me: Seq<u8>, r: RumorView) -> bool {
    spec_kept(me, r).encodable() && spec_kept(me, r).encode().len() <= MAX_LEN
}

/// The datagram in which a rumor is kept.
#[verifier::opaque]
pub open spec fn spec_written(me: Seq<u8>, r: RumorView) -> Seq<u8> {
    spec_kept(me, r).encode()
}

/// The rumor that a record's datagram holds, whoever sent it.
#[verifier::opaque]
pub open spec fn spec_kept_rumor(record: Seq<u8>) -> Option<RumorView> {
    match spec_decode(record) {
        None => None,
        Some(e) => Some(e.kind),
    }
}

/// A rumor that can be kept is read back from its datagram, and the
/// datagram's length fits a length prefix.
pub proof fn lemma_kept(me: Seq<u8>, r: RumorView)
    requires
        spec_storable(me, r),
    ensures
        spec_kept_rumor(spec_written(me, r)) == Some(r),
        spec_written(me, r).len() <= MAX_LEN,
{
    reveal(spec_storable);
    reveal(spec_written);
    reveal(spec_kept_rumor);
    lemma_decode_encode(spec_kept(me, r));
}

/// The records of some rumors, one behind the other.
pub open spec fn spec_records(me: Seq<u8>, rumors: Seq<RumorView>) -> Seq<u8>
    decreases rumors.len(),
{
    if rumors.len() == 0 {
        Seq::empty()
    } else {
        spec_prefixed(spec_written(me, rumors.first())) + spec_records(me, rumors.drop_first())
    }
}

/// A section: the number of its records, and the records.
pub open spec fn spec_section(me: Seq<u8>, rumors: Seq<RumorView>) -> Seq<u8> {
    spec_u32_to_le_bytes(rumors.len() as u32) + spec_records(me, rumors)
}

/// The sections from `from` on, one behind the other.
pub open spec fn spec_sections(me: Seq<u8>, all: Seq<Seq<RumorView>>, from: int) -> Seq<u8>
    decreases all.len() - from,
{
    if from < 0 || from >= all.len() {
        Seq::empty()
    } else {
        spec_section(me, all[from]) + spec_sections(me, all, from + 1)
    }
}

/// The header.
pub open spec fn spec_header() -> Seq<u8> {
    spec_u32_to_le_bytes(SNAPSHOT_VERSION) + spec_u32_to_le_bytes(SECTION_COUNT)
}

/// The snapshot of seven sections, written by the node `me`.
pub open spec fn spec_dump(me: Seq<u8>, all: Seq<Seq<RumorView>>) -> Seq<u8> {
    spec_header() + spec_sections(me, all, 0)
}

/// Whether seven sections can be written: each holds rumors of its own
/// kind that can be kept, and no more of them than a count can say.
pub open spec fn spec_dumpable(me: Seq<u8>, all: Seq<Seq<RumorView>>) -> bool {
    &&& all.len() == SECTION_COUNT
    &&& forall|s: int| 0 <= s < all.len() ==> (#[trigger] all[s]).len() <= MAX_LEN
    &&& forall|s: int, i: int|
        0 <= s < all.len() && 0 <= i < all[s].len() ==> spec_storable(me, #[trigger] all[s][i])
            && all[s][i].kind() == spec_section_kind(s)
}

/// The rumors of `count` records of one kind that start at `pos`, with the
/// position behind them.
pub open spec fn spec_read_records(s: Seq<u8>, pos: int, count: nat, kind: RumorType) -> Option<
    (Seq<RumorView>, int),
>
    decreases count,
{
    if count == 0 {
        Some((Seq::empty(), pos))
    } else {
        match spec_prefixed_at(s, pos) {
            None => None,
            Some((record, p)) => match spec_kept_rumor(record) {
                None => None,
                Some(r) => if r.kind() != kind {
                    None
                } else {
                    match spec_read_records(s, p, (count - 1) as nat, kind) {
                        None => None,
                        Some((rest, end)) => Some((seq![r] + rest, end)),
                    }
                },
            },
        }
    }
}

/// The rumors of the section of one kind that starts at `pos`, with the
/// position behind it.
pub open spec fn spec_read_section(s: Seq<u8>, pos: int, kind: RumorType) -> Option<
    (Seq<RumorView>, int),
> {
    match spec_u32_at(s, pos) {
        None => None,
        Some((count, p)) => spec_read_records(s, p, count as nat, kind),
    }
}

/// The sections from `from` on, the first of which starts at `pos`, with
/// the position behind the last.
pub open spec fn spec_read_sections(s: Seq<u8>, pos: int, from: int) -> Option<
    (Seq<Seq<RumorView>>, int),
>
    decreases SECTION_COUNT - from,
{
    if from < 0 || from >= SECTION_COUNT {
        Some((Seq::empty(), pos))
    } else {
        match spec_read_section(s, pos, spec_section_kind(from)) {
            None => None,
            Some((section, p)) => match spec_read_sections(s, p, from + 1) {
                None => None,
                Some((rest, end)) => Some((seq![section] + rest, end)),
            },
        }
    }
}

/// Whether the bytes start with a header: two `u32`, the second of which is
/// the number of sections.
pub open spec fn spec_has_header(s: Seq<u8>) -> bool {
    s.len() >= SNAPSHOT_HEADER_LEN && spec_u32_from_le_bytes(s.subrange(4, 8)) == SECTION_COUNT
}

/// Whether the header names the format version that is read here.
pub open spec fn spec_has_version(s: Seq<u8>) -> bool {
    s.len() >= SNAPSHOT_HEADER_LEN && spec_u32_from_le_bytes(s.subrange(0, 4)) == SNAPSHOT_VERSION
}

/// The sections of a snapshot. `None` where the header is not in order,
/// where a section does not read, or where bytes are left behind the last
/// section.
pub open spec fn spec_read(s: Seq<u8>) -> Option<Seq<Seq<RumorView>>> {
    if !spec_has_header(s) || !spec_has_version(s) {
        None
    } else {
        match spec_read_sections(s, SNAPSHOT_HEADER_LEN as int, 0) {
            None => None,
            Some((all, end)) => if end == s.len() {
                Some(all)
            } else {
                None
            },
        }
    }
}

/// Records that were written between two byte strings are read back at the
/// end of the first.
pub proof fn lemma_read_records_written(
    a: Seq<u8>,
    me: Seq<u8>,
    rumors: Seq<RumorView>,
    b: Seq<u8>,
    kind: RumorType,
)
    requires
        forall|i: int|
            0 <= i < rumors.len() ==> spec_storable(me, #[trigger] rumors[i]) && rumors[i].kind()
                == kind,
    ensures
        spec_read_records(a + spec_records(me, rumors) + b, a.len() as int, rumors.len(), kind)
            == Some((rumors, (a.len() + spec_records(me, rumors).len()) as int)),
    decreases rumors.len(),
{
    let s = a + spec_records(me, rumors) + b;
    if rumors.len() > 0 {
        let first = rumors.first();
        let rest = rumors.drop_first();
        let bytes = spec_written(me, first);
        let record = spec_prefixed(bytes);
        let tail = spec_records(me, rest);
        let start = a.len() as int;
        assert(spec_storable(me, rumors[0]));
        lemma_kept(me, first);
        assert(spec_records(me, rumors) == record + tail);
        assert(spec_prefixed_at(s, start) == Some((bytes, start + 4 + bytes.len()))) by {
            assert(s =~= a + record + (tail + b));
            lemma_prefixed_at_written(a, bytes, tail + b);
        }
        assert(record.len() == 4 + bytes.len()) by {
            lemma_prefixed_at_written(a, bytes, tail + b);
        }
        assert forall|i: int| 0 <= i < rest.len() implies spec_storable(me, #[trigger] rest[i])
            && rest[i].kind() == kind by {
            assert(rest[i] == rumors[i + 1]);
        }
        assert(spec_read_records(s, start + 4 + bytes.len(), rest.len(), kind) == Some(
            (rest, (a.len() + record.len() + tail.len()) as int),
        )) by {
            lemma_read_records_written(a + record, me, rest, b, kind);
            assert(s =~= (a + record) + tail + b);
        }
        assert(seq![rumors.first()] + rest =~= rumors);
    }
}

/// Sections that were written between two byte strings are read back at
/// the end of the first.
pub proof fn lemma_read_sections_written(
    a: Seq<u8>,
    me: Seq<u8>,
    all: Seq<Seq<RumorView>>,
    from: int,
)
    requires
        spec_dumpable(me, all),
        0 <= from <= SECTION_COUNT,
    ensures
        spec_read_sections(a + spec_sections(me, all, from), a.len() as int, from) == Some(
            (all.subrange(from, all.len() as int), (a.len() + spec_sections(me, all, from).len()) as int),
        ),
    decreases SECTION_COUNT - from,
{
    let s = a + spec_sections(me, all, from);
    if from < SECTION_COUNT {
        let section = all[from];
        let kind = spec_section_kind(from);
        let count = spec_u32_to_le_bytes(section.len() as u32);
        let tail = spec_sections(me, all, from + 1);
        lemma_int_widths(section.len() as u32, 0);
        assert(s =~= a + count + (spec_records(me, section) + tail));
        lemma_u32_at_written(a, section.len() as u32, spec_records(me, section) + tail);
        assert(s =~= (a + count) + spec_records(me, section) + tail);
        assert forall|i: int| 0 <= i < section.len() implies spec_storable(
            me,
            #[trigger] section[i],
        ) && section[i].kind() == kind by {
            assert(spec_storable(me, all[from][i]));
        }
        lemma_read_records_written(a + count, me, section, tail, kind);
        lemma_read_sections_written(a + count + spec_records(me, section), me, all, from + 1);
        assert(s =~= (a + count + spec_records(me, section)) + tail);
        assert(seq![section] + all.subrange(from + 1, all.len() as int) =~= all.subrange(
            from,
            all.len() as int,
        ));
    } else {
        assert(all.subrange(from, all.len() as int) =~= Seq::<Seq<RumorView>>::empty());
        assert(s =~= a);
    }
}

/// A snapshot that was written is read back as it was.
pub proof fn lemma_read_dump(me: Seq<u8>, all: Seq<Seq<RumorView>>)
    requires
        spec_dumpable(me, all),
    ensures
        spec_read(spec_dump(me, all)) == Some(all),
{
    let s = spec_dump(me, all);
    lemma_int_widths(SNAPSHOT_VERSION, 0);
    lemma_int_widths(SECTION_COUNT, 0);
    assert(s.subrange(0, 4) =~= spec_u32_to_le_bytes(SNAPSHOT_VERSION));
    assert(s.subrange(4, 8) =~= spec_u32_to_le_bytes(SECTION_COUNT));
    lemma_read_sections_written(spec_header(), me, all, 0);
    assert(all.subrange(0, all.len() as int) =~= all);
}

/// Appending a rumor to the rumors of a section appends its record to the
/// section's records.
pub proof fn lemma_records_push(me: Seq<u8>, rumors: Seq<RumorView>, r: RumorView)
    ensures
        spec_records(me, rumors.push(r)) == spec_records(me, rumors) + spec_prefixed(
            spec_written(me, r),
        ),
    decreases rumors.len(),
{
    let next = rumors.push(r);
    if rumors.len() == 0 {
        assert(next.drop_first() =~= Seq::<RumorView>::empty());
        assert(next.first() == r);
        assert(spec_records(me, next.drop_first()) =~= Seq::<u8>::empty());
        assert(spec_records(me, next) =~= spec_prefixed(spec_written(me, r)) + Seq::<u8>::empty());
        assert(spec_records(me, next) =~= spec_records(me, rumors) + spec_prefixed(
            spec_written(me, r),
        ));
    } else {
        lemma_records_push(me, rumors.drop_first(), r);
        assert(next.drop_first() =~= rumors.drop_first().push(r));
        assert(next.first() == rumors.first());
        assert(spec_records(me, next) =~= spec_records(me, rumors) + spec_prefixed(
            spec_written(me, r),
        ));
    }
}

/// What was read so far, followed by what the rest reads as.
pub open spec fn spec_and_then<T>(done: Seq<T>, rest: Option<(Seq<T>, int)>) -> Option<
    (Seq<T>, int),
> {
    match rest {
        None => None,
        Some((more, end)) => Some((done + more, end)),
    }
}

/// Whether sections are those of a snapshot: seven, each of rumors of its
/// own kind.
pub open spec fn spec_sorted(all: Seq<Seq<RumorView>>) -> bool {
    &&& all.len() == SECTION_COUNT
    &&& forall|s: int, i: int|
        0 <= s < all.len() && 0 <= i < all[s].len() ==> (#[trigger] all[s][i]).kind()
            == spec_section_kind(s)
}

/// Why bytes are not read as a snapshot.
pub open spec fn spec_read_error(s: Seq<u8>) -> Error {
    if s.len() < SNAPSHOT_HEADER_LEN {
        Error::BadSnapshotHeader
    } else if !spec_has_version(s) {
        Error::UnsupportedSnapshotVersion
    } else if !spec_has_header(s) {
        Error::BadSnapshotHeader
    } else {
        Error::MalformedSnapshot
    }
}

/// The sections from `from` on that read, the first of which starts at
/// `pos`, up to the first that does not read.
pub open spec fn spec_read_front(s: Seq<u8>, pos: int, from: int) -> Seq<Seq<RumorView>>
    decreases SECTION_COUNT - from,
{
    if from < 0 || from >= SECTION_COUNT {
        Seq::empty()
    } else {
        match spec_read_section(s, pos, spec_section_kind(from)) {
            None => Seq::empty(),
            Some((section, p)) => seq![section] + spec_read_front(s, p, from + 1),
        }
    }
}

/// What can be listed of a snapshot: nothing where the header is not in
/// order, and otherwise the sections in front of the first that does not
/// read.
pub open spec fn spec_listed(s: Seq<u8>) -> Seq<Seq<RumorView>> {
    if !spec_has_header(s) || !spec_has_version(s) {
        Seq::empty()
    } else {
        spec_read_front(s, SNAPSHOT_HEADER_LEN as int, 0)
    }
}

/// The views of the sections of a listing.
pub open spec fn spec_section_views(v: Seq<Vec<Rumor>>) -> Seq<Seq<RumorView>> {
    Seq::new(v.len(), |i: int| spec_views(v[i]@))
}

/// Where all the sections read, the sections in front of the first that
/// does not read are all the sections.
pub proof fn lemma_front_is_all(s: Seq<u8>, pos: int, from: int)
    requires
        spec_read_sections(s, pos, from) is Some,
    ensures
        spec_read_front(s, pos, from) == spec_read_sections(s, pos, from).unwrap().0,
    decreases SECTION_COUNT - from,
{
    if 0 <= from < SECTION_COUNT {
        let (section, p) = spec_read_section(s, pos, spec_section_kind(from)).unwrap();
        lemma_front_is_all(s, p, from + 1);
    }
}

/// A snapshot that reads is listed in full.
pub proof fn lemma_listed_is_read(s: Seq<u8>)
    requires
        spec_read(s) is Some,
    ensures
        spec_listed(s) == spec_read(s).unwrap(),
{
    lemma_front_is_all(s, SNAPSHOT_HEADER_LEN as int, 0);
}

/// What could be read of a snapshot: the sections in front of the first
/// that does not read, membership first, and why the reading ended there.
#[derive(Debug)]
pub struct Listing {
    pub sections: Vec<Vec<Rumor>>,
    /// `None` where the whole snapshot was read.
    pub error: Option<Error>,
}

/// How many rumors of each kind a snapshot holds.
#[derive(Clone, Copy, Debug, PartialEq, Eq, Structural)]
pub struct Stats {
    pub membership: usize,
    pub services: usize,
    pub service_configs: usize,
    pub service_files: usize,
    pub elections: usize,
    pub update_elections: usize,
    pub departures: usize,
}

/// The kind of rumor that the section at `index` holds.
fn section_kind(index: usize) -> (r: RumorType)
    requires
        index < SECTION_COUNT,
    ensures
        r == spec_section_kind(index as int),
{
    if index == 0 {
        RumorType::Member
    } else if index == 1 {
        RumorType::Service
    } else if index == 2 {
        RumorType::ServiceConfig
    } else if index == 3 {
        RumorType::ServiceFile
    } else if index == 4 {
        RumorType::Election
    } else if index == 5 {
        RumorType::ElectionUpdate
    } else {
        RumorType::Departure
    }
}

/// Writes one section.
fn write_section(out: &mut Vec<u8>, me: &[u8], rumors: &Vec<Rumor>) -> (r: Result<(), Error>)
    ensures
        r is Ok <==> rumors@.len() <= MAX_LEN && forall|i: int|
            0 <= i < rumors@.len() ==> spec_storable(me@, (#[trigger] rumors@[i])@),
        r is Ok ==> final(out)@ == old(out)@ + spec_section(me@, spec_views(rumors@)),
        r matches Err(e) ==> e == Error::TooLarge,
{
    if rumors.len() > MAX_LEN {
        return Err(Error::TooLarge);
    }
    let ghost views = spec_views(rumors@);
    let ghost start = out@;
    put_u32(out, rumors.len() as u32);
    let ghost count = spec_u32_to_le_bytes(rumors.len() as u32);
    let mut i: usize = 0;
    while i < rumors.len()
        invariant
            i <= rumors.len(),
            views == spec_views(rumors@),
            out@ == start + count + spec_records(me@, views.subrange(0, i as int)),
            forall|j: int| 0 <= j < i ==> spec_storable(me@, (#[trigger] rumors@[j])@),
        decreases rumors.len() - i,
    {
        let envelope = RumorEnvelope { from_id: vstd::slice::slice_to_vec(me), kind: rumors[i].clone() };
        assert(envelope@ == spec_kept(me@, rumors@[i as int]@));
        let bytes = match envelope.encode() {
            Ok(b) => b,
            Err(_) => {
                proof {
                    reveal(spec_storable);
                }
                return Err(Error::TooLarge);
            },
        };
        if bytes.len() > MAX_LEN {
            proof {
                reveal(spec_storable);
            }
            return Err(Error::TooLarge);
        }
        proof {
            reveal(spec_storable);
            reveal(spec_written);
            let done = views.subrange(0, i as int);
            lemma_records_push(me@, done, views[i as int]);
            assert(views.subrange(0, i + 1) =~= done.push(views[i as int]));
        }
        let ghost held = out@;
        put_prefixed(out, bytes.as_slice());
        assert(out@ =~= start + count + spec_records(me@, views.subrange(0, i + 1)));
        i = i + 1;
    }
    proof {
        assert(views.subrange(0, rumors@.len() as int) =~= views);
        assert(out@ =~= start + spec_section(me@, views));
    }
    Ok(())
}

/// Reads one section.
fn read_section(buf: &[u8], pos: usize, kind: RumorType) -> (r: Option<(Vec<Rumor>, usize)>)
    ensures
        r is Some <==> spec_read_section(buf@, pos as int, kind) is Some,
        r matches Some((v, p)) ==> spec_read_section(buf@, pos as int, kind) == Some(
            (spec_views(v@), p as int),
        ) && forall|i: int| 0 <= i < v@.len() ==> (#[trigger] v@[i])@.kind() == kind,
{
    let (count, start) = match read_u32(buf, pos) {
        Some(x) => x,
        None => {
            return None;
        },
    };
    let mut out: Vec<Rumor> = Vec::new();
    let mut at: usize = start;
    let mut i: u32 = 0;
    proof {
        let whole = spec_read_records(buf@, start as int, count as nat, kind);
        assert(spec_views(out@) =~= Seq::<RumorView>::empty());
        match whole {
            None => {},
            Some((more, end)) => {
                assert(spec_views(out@) + more =~= more);
            },
        }
    }
    while i < count
        invariant
            i <= count,
            out@.len() == i,
            forall|j: int| 0 <= j < out@.len() ==> (#[trigger] out@[j])@.kind() == kind,
            spec_read_section(buf@, pos as int, kind) == spec_read_records(
                buf@,
                start as int,
                count as nat,
                kind,
            ),
            spec_read_records(buf@, start as int, count as nat, kind) == spec_and_then(
                spec_views(out@),
                spec_read_records(buf@, at as int, (count - i) as nat, kind),
            ),
        decreases count - i,
    {
        let (record, next) = match read_prefixed(buf, at) {
            Some(x) => x,
            None => {
                return None;
            },
        };
        let envelope = match RumorEnvelope::decode(record.as_slice()) {
            Ok(e) => e,
            Err(_) => {
                proof {
                    reveal(spec_kept_rumor);
                }
                return None;
            },
        };
        proof {
            reveal(spec_kept_rumor);
        }
        if envelope.kind.kind() != kind {
            return None;
        }
        proof {
            let done = spec_views(out@);
            let r = envelope.kind@;
            let rest = spec_read_records(buf@, next as int, (count - i - 1) as nat, kind);
            assert(spec_read_records(buf@, at as int, (count - i) as nat, kind) == match rest {
                None => None,
                Some((more, end)) => Some((seq![r] + more, end)),
            });
            match rest {
                None => {},
                Some((more, end)) => {
                    assert(done + (seq![r] + more) =~= done.push(r) + more);
                },
            }
            assert(spec_views(out@.push(envelope.kind)) =~= done.push(r));
        }
        out.push(envelope.kind);
        at = next;
        i = i + 1;
    }
    proof {
        assert(spec_views(out@) + Seq::<RumorView>::empty() =~= spec_views(out@));
    }
    Some((out, at))
}

/// What a snapshot holds: seven sections of rumors, each of its own kind.
pub struct DatFile {
    sections: Vec<Vec<Rumor>>,
}

impl View for DatFile {
    type V = Seq<Seq<RumorView>>;

    closed spec fn view(&self) -> Seq<Seq<RumorView>> {
        Seq::new(self.sections@.len(), |s: int| spec_views(self.sections@[s]@))
    }
}

impl DatFile {
    /// The invariant: seven sections, each of rumors of its own kind.
    pub closed spec fn wf(&self) -> bool {
        &&& self.sections@.len() == SECTION_COUNT
        &&& forall|s: int, i: int|
            0 <= s < self.sections@.len() && 0 <= i < self.sections@[s]@.len() ==> (
            #[trigger] self.sections@[s]@[i])@.kind() == spec_section_kind(s)
    }

    /// The sections of a well-formed value are those of a snapshot.
    pub proof fn lemma_sorted(&self)
        requires
            self.wf(),
        ensures
            spec_sorted(self@),
    {
        assert forall|s: int, i: int| 0 <= s < self@.len() && 0 <= i < self@[s].len() implies (
        #[trigger] self@[s][i]).kind() == spec_section_kind(s) by {
            assert(self.sections@[s]@[i]@.kind() == spec_section_kind(s));
        }
    }

    /// Reads a snapshot.
    ///
    /// Fails with [`Error::BadSnapshotHeader`] where the bytes are shorter
    /// than a header or the header does not announce seven sections, with
    /// [`Error::UnsupportedSnapshotVersion`] where it names another format
    /// version, and with [`Error::MalformedSnapshot`] where the seven
    /// sections do not read or do not end with the bytes.
    pub fn read(buf: &[u8]) -> (r: Result<DatFile, Error>)
        ensures
            r is Ok <==> spec_read(buf@) is Some,
            r matches Ok(d) ==> d.wf() && spec_read(buf@) == Some(d@),
            r matches Err(e) ==> e == spec_read_error(buf@),
    {
        if buf.len() < SNAPSHOT_HEADER_LEN {
            return Err(Error::BadSnapshotHeader);
        }
        match read_u32(buf, 0) {
            Some((version, _)) => {
                if version != SNAPSHOT_VERSION {
                    return Err(Error::UnsupportedSnapshotVersion);
                }
            },
            None => {
                return Err(Error::BadSnapshotHeader);
            },
        }
        match read_u32(buf, 4) {
            Some((count, _)) => {
                if count != SECTION_COUNT {
                    return Err(Error::BadSnapshotHeader);
                }
            },
            None => {
                return Err(Error::BadSnapshotHeader);
            },
        }
        let mut sections: Vec<Vec<Rumor>> = Vec::new();
        let mut at: usize = SNAPSHOT_HEADER_LEN;
        let mut s: usize = 0;
        let ghost mut done: Seq<Seq<RumorView>> = Seq::empty();
        proof {
            match spec_read_sections(buf@, SNAPSHOT_HEADER_LEN as int, 0) {
                None => {},
                Some((more, end)) => {
                    assert(done + more =~= more);
                },
            }
        }
        while s < 7
            invariant
                s <= 7,
                sections@.len() == s,
                done.len() == s,
                forall|a: int| 0 <= a < s ==> #[trigger] done[a] == spec_views(sections@[a]@),
                forall|a: int, i: int|
                    0 <= a < sections@.len() && 0 <= i < sections@[a]@.len() ==> (
                    #[trigger] sections@[a]@[i])@.kind() == spec_section_kind(a),
                spec_read_sections(buf@, SNAPSHOT_HEADER_LEN as int, 0) == spec_and_then(
                    done,
                    spec_read_sections(buf@, at as int, s as int),
                ),
                spec_has_header(buf@),
                spec_has_version(buf@),
                buf@.len() >= SNAPSHOT_HEADER_LEN,
            decreases 7 - s,
        {
            let (section, next) = match read_section(buf, at, section_kind(s)) {
                Some(x) => x,
                None => {
                    return Err(Error::MalformedSnapshot);
                },
            };
            proof {
                let views = spec_views(section@);
                let rest = spec_read_sections(buf@, next as int, s + 1);
                assert(spec_read_sections(buf@, at as int, s as int) == match rest {
                    None => None,
                    Some((more, end)) => Some((seq![views] + more, end)),
                });
                match rest {
                    None => {},
                    Some((more, end)) => {
                        assert(done + (seq![views] + more) =~= done.push(views) + more);
                    },
                }
                done = done.push(views);
            }
            sections.push(section);
            at = next;
            s = s + 1;
        }
        proof {
            assert(done + Seq::<Seq<RumorView>>::empty() =~= done);
        }
        if at != buf.len() {
            return Err(Error::MalformedSnapshot);
        }
        let d = DatFile { sections };
        assert(d@ =~= done);
        Ok(d)
    }

    /// Reads of a snapshot what can be read: section after section, up to
    /// the first that does not read. The sections in front of the damage
    /// come back with the error that [`DatFile::read`] gives for the bytes;
    /// a snapshot that reads comes back in full, with no error.
    pub fn list(buf: &[u8]) -> (r: Listing)
        ensures
            r.error is None <==> spec_read(buf@) is Some,
            r.error matches Some(e) ==> e == spec_read_error(buf@),
            spec_section_views(r.sections@) == spec_listed(buf@),
            forall|a: int, i: int|
                0 <= a < r.sections@.len() && 0 <= i < r.sections@[a]@.len() ==> (
                #[trigger] r.sections@[a]@[i])@.kind() == spec_section_kind(a),
    {
        let mut sections: Vec<Vec<Rumor>> = Vec::new();
        proof {
            assert(spec_section_views(sections@) =~= Seq::<Seq<RumorView>>::empty());
        }
        if buf.len() < SNAPSHOT_HEADER_LEN {
            return Listing { sections, error: Some(Error::BadSnapshotHeader) };
        }
        match read_u32(buf, 0) {
            Some((version, _)) => {
                if version != SNAPSHOT_VERSION {
                    return Listing { sections, error: Some(Error::UnsupportedSnapshotVersion) };
                }
            },
            None => {
                return Listing { sections, error: Some(Error::BadSnapshotHeader) };
            },
        }
        match read_u32(buf, 4) {
            Some((count, _)) => {
                if count != SECTION_COUNT {
                    return Listing { sections, error: Some(Error::BadSnapshotHeader) };
                }
            },
            None => {
                return Listing { sections, error: Some(Error::BadSnapshotHeader) };
            },
        }
        let mut at: usize = SNAPSHOT_HEADER_LEN;
        let mut s: usize = 0;
        let ghost mut done: Seq<Seq<RumorView>> = Seq::empty();
        proof {
            match spec_read_sections(buf@, SNAPSHOT_HEADER_LEN as int, 0) {
                None => {},
                Some((more, end)) => {
                    assert(done + more =~= more);
                },
            }
            assert(done + spec_read_front(buf@, SNAPSHOT_HEADER_LEN as int, 0) =~= spec_read_front(
                buf@,
                SNAPSHOT_HEADER_LEN as int,
                0,
            ));
        }
        while s < 7
            invariant
                s <= 7,
                sections@.len() == s,
                done == spec_section_views(sections@),
                forall|a: int, i: int|
                    0 <= a < sections@.len() && 0 <= i < sections@[a]@.len() ==> (
                    #[trigger] sections@[a]@[i])@.kind() == spec_section_kind(a),
                spec_read_sections(buf@, SNAPSHOT_HEADER_LEN as int, 0) == spec_and_then(
                    done,
                    spec_read_sections(buf@, at as int, s as int),
                ),
                spec_read_front(buf@, SNAPSHOT_HEADER_LEN as int, 0) == done + spec_read_front(
                    buf@,
                    at as int,
                    s as int,
                ),
                spec_has_header(buf@),
                spec_has_version(buf@),
                buf@.len() >= SNAPSHOT_HEADER_LEN,
            decreases 7 - s,
        {
            let (section, next) = match read_section(buf, at, section_kind(s)) {
                Some(x) => x,
                None => {
                    proof {
                        assert(done + Seq::<Seq<RumorView>>::empty() =~= done);
                    }
                    return Listing { sections, error: Some(Error::MalformedSnapshot) };
                },
            };
            proof {
                let views = spec_views(section@);
                let rest = spec_read_sections(buf@, next as int, s + 1);
                assert(spec_read_sections(buf@, at as int, s as int) == match rest {
                    None => None,
                    Some((more, end)) => Some((seq![views] + more, end)),
                });
                match rest {
                    None => {},
                    Some((more, end)) => {
                        assert(done + (seq![views] + more) =~= done.push(views) + more);
                    },
                }
                let front = spec_read_front(buf@, next as int, s + 1);
                assert(spec_read_front(buf@, at as int, s as int) == seq![views] + front);
                assert(done + (seq![views] + front) =~= done.push(views) + front);
                assert(spec_section_views(sections@.push(section)) =~= done.push(views));
                done = done.push(views);
            }
            sections.push(section);
            at = next;
            s = s + 1;
        }
        proof {
            assert(done + Seq::<Seq<RumorView>>::empty() =~= done);
        }
        let error = if at != buf.len() {
            Some(Error::MalformedSnapshot)
        } else {
            None
        };
        Listing { sections, error }
    }

    /// Writes the snapshot, as the node `me`.
    ///
    /// Fails with [`Error::TooLarge`] exactly where a rumor cannot be kept
    /// or a section holds more rumors than a count can say.
    pub fn write(&self, me: &[u8]) -> (r: Result<Vec<u8>, Error>)
        requires
            self.wf(),
        ensures
            r is Ok <==> spec_dumpable(me@, self@),
            r matches Ok(b) ==> b@ == spec_dump(me@, self@),
            r matches Err(e) ==> e == Error::TooLarge,
    {
        let mut out: Vec<u8> = Vec::new();
        put_u32(&mut out, SNAPSHOT_VERSION);
        put_u32(&mut out, SECTION_COUNT);
        let ghost all = self@;
        proof {
            self.lemma_sorted();
            assert(out@ =~= spec_header());
            assert(out@ + spec_sections(me@, all, 0) =~= spec_dump(me@, all));
        }
        let mut s: usize = 0;
        while s < 7
            invariant
                s <= 7,
                self.wf(),
                all == self@,
                spec_sorted(all),
                out@ + spec_sections(me@, all, s as int) == spec_dump(me@, all),
                forall|a: int| 0 <= a < s ==> (#[trigger] all[a]).len() <= MAX_LEN,
                forall|a: int, i: int|
                    0 <= a < s && 0 <= i < all[a].len() ==> spec_storable(me@, #[trigger] all[a][i]),
            decreases 7 - s,
        {
            let ghost held = out@;
            match write_section(&mut out, me, &self.sections[s]) {
                Ok(()) => {},
                Err(e) => {
                    proof {
                        let section = self.sections@[s as int]@;
                        if section.len() <= MAX_LEN {
                            let i = choose|i: int|
                                0 <= i < section.len() && !spec_storable(me@, (#[trigger] section[i])@);
                            assert(all[s as int][i] == section[i]@);
                        } else {
                            assert(all[s as int].len() > MAX_LEN);
                        }
                    }
                    return Err(e);
                },
            }
            proof {
                let section = self.sections@[s as int]@;
                assert(all[s as int] == spec_views(section));
                assert(out@ + spec_sections(me@, all, s + 1) =~= held + spec_sections(
                    me@,
                    all,
                    s as int,
                ));
                assert forall|i: int| 0 <= i < all[s as int].len() implies spec_storable(
                    me@,
                    #[trigger] all[s as int][i],
                ) by {
                    assert(all[s as int][i] == section[i]@);
                }
            }
            s = s + 1;
        }
        proof {
            assert(out@ + Seq::<u8>::empty() =~= out@);
        }
        Ok(out)
    }

    /// The membership records of the snapshot.
    pub fn read_members(&self) -> (r: Vec<Membership>)
        requires
            self.wf(),
        ensures
            r@.len() == self@[0].len(),
            forall|i: int|
                0 <= i < r@.len() ==> RumorView::Membership((#[trigger] r@[i])@) == self@[0][i],
    {
        let section = &self.sections[0];
        let mut out: Vec<Membership> = Vec::new();
        let mut i: usize = 0;
        while i < section.len()
            invariant
                i <= section.len(),
                out@.len() == i,
                self.wf(),
                *section == self.sections@[0],
                forall|j: int| 0 <= j < i ==> RumorView::Membership((#[trigger] out@[j])@) == section@[j]@,
            decreases section.len() - i,
        {
            assert(self.sections@[0]@[i as int]@.kind() == spec_section_kind(0));
            match &section[i] {
                Rumor::Membership(m) => {
                    out.push(m.clone());
                },
                _ => {
                    assert(false);
                },
            }
            i = i + 1;
        }
        out
    }

    /// The rumors of one kind that the snapshot holds.
    pub fn read_rumors(&self, kind: RumorType) -> (r: Vec<Rumor>)
        requires
            self.wf(),
        ensures
            spec_views(r@) == self@[kind.tag() - 1],
    {
        let section = &self.sections[(kind.to_byte() - 1) as usize];
        let mut out: Vec<Rumor> = Vec::new();
        let mut i: usize = 0;
        while i < section.len()
            invariant
                i <= section.len(),
                out@.len() == i,
                forall|j: int| 0 <= j < i ==> (#[trigger] out@[j])@ == section@[j]@,
            decreases section.len() - i,
        {
            out.push(section[i].clone());
            i = i + 1;
        }
        assert(spec_views(out@) =~= self@[kind.tag() - 1]);
        out
    }

    /// How many rumors of each kind the snapshot holds.
    pub fn stats(&self) -> (r: Stats)
        requires
            self.wf(),
        ensures
            r.membership == self@[0].len(),
            r.services == self@[1].len(),
            r.service_configs == self@[2].len(),
            r.service_files == self@[3].len(),
            r.elections == self@[4].len(),
            r.update_elections == self@[5].len(),
            r.departures == self@[6].len(),
    {
        Stats {
            membership: self.sections[0].len(),
            services: self.sections[1].len(),
            service_configs: self.sections[2].len(),
            service_files: self.sections[3].len(),
            elections: self.sections[4].len(),
            update_elections: self.sections[5].len(),
            departures: self.sections[6].len(),
        }
    }
}

/// Whether sections list what a node holds: in each section the rumors of
/// its kind, each once.
pub open spec fn spec_captures(sv: ServerView, all: Seq<Seq<RumorView>>) -> bool {
    &&& all.len() == SECTION_COUNT
    &&& forall|s: int|
        0 <= s < SECTION_COUNT ==> spec_lists(spec_held(sv, spec_section_kind(s)), #[trigger] all[s])
}

/// Whether everything that a node holds can be kept.
pub open spec fn spec_can_dump(server: Server) -> bool {
    &&& forall|kind: RumorType| (#[trigger] server.spec_store(kind)).spec_len() <= MAX_LEN
    &&& forall|kind: RumorType, k: Identity| #[trigger]
        server.spec_store(kind)@.contains_key(k) ==> spec_storable(
            server@.me.id,
            server.spec_store(kind)@[k],
        )
}

/// The state after the first `n` sections of a snapshot were read back,
/// rumor by rumor.
pub open spec fn spec_restore_upto(sv: ServerView, all: Seq<Seq<RumorView>>, n: int) -> ServerView
    decreases n,
{
    if n <= 0 {
        sv
    } else {
        spec_restore_all(spec_restore_upto(sv, all, n - 1), all[n - 1])
    }
}

/// The state after a snapshot was read back.
pub open spec fn spec_restore_sections(sv: ServerView, all: Seq<Seq<RumorView>>) -> ServerView {
    spec_restore_upto(sv, all, SECTION_COUNT as int)
}

/// The records that membership rumors hold.
pub open spec fn spec_record_seq(items: Seq<RumorView>) -> Seq<MembershipView> {
    Seq::new(items.len(), |i: int| spec_record(items[i]))
}

/// The state `sv` with what it holds of one kind replaced by what `src`
/// holds of that kind.
pub open spec fn spec_with_held(sv: ServerView, kind: RumorType, src: ServerView) -> ServerView {
    match kind {
        RumorType::Member => ServerView { members: src.members, ..sv },
        RumorType::Service => ServerView { services: src.services, ..sv },
        RumorType::ServiceConfig => ServerView { service_configs: src.service_configs, ..sv },
        RumorType::ServiceFile => ServerView { service_files: src.service_files, ..sv },
        RumorType::Election => ServerView { elections: src.elections, ..sv },
        RumorType::ElectionUpdate => ServerView { updates: src.updates, ..sv },
        RumorType::Departure => ServerView { departures: src.departures, ..sv },
    }
}

/// Whether, in what it holds of one kind, `sv` is behind `src`.
pub open spec fn spec_kind_behind(sv: ServerView, kind: RumorType, src: ServerView) -> bool {
    match kind {
        RumorType::Member => spec_members_behind(sv.members, src.members),
        _ => spec_behind(spec_held(sv, kind), spec_held(src, kind)),
    }
}

/// Whether `sv` is behind `src` in everything it holds.
pub open spec fn spec_view_behind(sv: ServerView, src: ServerView) -> bool {
    forall|kind: RumorType| #[trigger] spec_kind_behind(sv, kind, src)
}

/// The state after rumors of one kind were read back: what the node holds
/// of that kind after they were merged into it, and the rest as it was.
pub open spec fn spec_section_restored(sv: ServerView, kind: RumorType, items: Seq<RumorView>) -> ServerView {
    match kind {
        RumorType::Member => ServerView {
            members: spec_merge_all(sv.members, spec_record_seq(items)),
            ..sv
        },
        RumorType::Service => ServerView {
            services: spec_insert_all(kind, sv.services, items),
            ..sv
        },
        RumorType::ServiceConfig => ServerView {
            service_configs: spec_insert_all(kind, sv.service_configs, items),
            ..sv
        },
        RumorType::ServiceFile => ServerView {
            service_files: spec_insert_all(kind, sv.service_files, items),
            ..sv
        },
        RumorType::Election => ServerView {
            elections: spec_insert_all(kind, sv.elections, items),
            ..sv
        },
        RumorType::ElectionUpdate => ServerView {
            updates: spec_insert_all(kind, sv.updates, items),
            ..sv
        },
        RumorType::Departure => ServerView {
            departures: spec_insert_all(kind, sv.departures, items),
            members: spec_depart_all(sv.members, items),
            ..sv
        },
    }
}

/// The table after the members of the departures of `items` have departed,
/// first to last.
pub open spec fn spec_depart_all(m: Members, items: Seq<RumorView>) -> Members
    decreases items.len(),
{
    if items.len() == 0 {
        m
    } else {
        spec_depart(spec_depart_all(m, items.drop_last()), items.last()->Departure_0.member_id)
    }
}

/// The departures of members that the table holds as `Departed` already
/// change nothing in the table.
pub proof fn lemma_departed_stay(m: Members, items: Seq<RumorView>)
    requires
        forall|i: int|
            0 <= i < items.len() ==> m.contains_key((#[trigger] items[i])->Departure_0.member_id)
                && m[items[i]->Departure_0.member_id].health == Health::Departed,
    ensures
        spec_depart_all(m, items) == m,
    decreases items.len(),
{
    if items.len() > 0 {
        let before = items.drop_last();
        assert forall|i: int| 0 <= i < before.len() implies m.contains_key(
            (#[trigger] before[i])->Departure_0.member_id,
        ) && m[before[i]->Departure_0.member_id].health == Health::Departed by {
            assert(before[i] == items[i]);
        }
        lemma_departed_stay(m, before);
        let id = items.last()->Departure_0.member_id;
        assert(items.last() == items[items.len() - 1]);
        assert(spec_depart(m, id) =~= m);
    }
}

/// Reading back rumors of one kind touches only what the node holds of that
/// kind, and merges them into it first to last; departures make their
/// members `Departed` besides.
pub proof fn lemma_restore_section(sv: ServerView, kind: RumorType, items: Seq<RumorView>)
    requires
        forall|i: int| 0 <= i < items.len() ==> (#[trigger] items[i]).kind() == kind,
    ensures
        spec_restore_all(sv, items) == spec_section_restored(sv, kind, items),
    decreases items.len(),
{
    if items.len() > 0 {
        let before = items.drop_last();
        assert forall|i: int| 0 <= i < before.len() implies (#[trigger] before[i]).kind()
            == kind by {
            assert(before[i] == items[i]);
        }
        lemma_restore_section(sv, kind, before);
        let x = items.last();
        assert(x == items[items.len() - 1]);
        assert(x.kind() == kind);
        assert(spec_record_seq(items).drop_last() =~= spec_record_seq(before));
        assert(spec_record_seq(items).last() == spec_record(x));
    }
}

/// Reading back what a sound state holds of one kind, into a state that is
/// behind it in that kind, gives what the sound state holds of it. For the
/// departures the table must have been read back before them; they then
/// find every one of their members `Departed` and leave the table alone.
pub proof fn lemma_restore_kind(
    sv: ServerView,
    kind: RumorType,
    src: ServerView,
    items: Seq<RumorView>,
)
    requires
        spec_view_sound(src),
        spec_lists(spec_held(src, kind), items),
        spec_kind_behind(sv, kind, src),
        kind == RumorType::Departure ==> sv.members == src.members,
    ensures
        spec_restore_all(sv, items) == spec_with_held(sv, kind, src),
{
    let held = spec_held(src, kind);
    assert forall|i: int| 0 <= i < items.len() implies (#[trigger] items[i]).kind() == kind by {
        assert(held.contains_key(spec_identity(items[i])));
    }
    lemma_restore_section(sv, kind, items);
    match kind {
        RumorType::Member => {
            let xs = spec_record_seq(items);
            let table = src.members;
            assert forall|i: int| 0 <= i < xs.len() implies table.contains_key(
                (#[trigger] xs[i]).member.id,
            ) && table[xs[i].member.id] == xs[i] by {
                assert(held.contains_key(spec_identity(items[i])));
            }
            assert forall|id: Seq<u8>| #[trigger] table.contains_key(id) implies exists|i: int|
                0 <= i < xs.len() && (#[trigger] xs[i]).member.id == id by {
                let k = (crate::rumor::spec_membership_group(), id);
                assert(held.contains_key(k));
                let i = choose|i: int| 0 <= i < items.len() && spec_identity(#[trigger] items[i]) == k;
                assert(held.contains_key(spec_identity(items[i])));
                assert(xs[i].member.id == id);
            }
            assert forall|i: int, j: int| 0 <= i < j < xs.len() implies (#[trigger] xs[i]).member.id
                != (#[trigger] xs[j]).member.id by {
                assert(held.contains_key(spec_identity(items[i])));
                assert(held.contains_key(spec_identity(items[j])));
                assert(spec_identity(items[i]) != spec_identity(items[j]));
            }
            lemma_merge_all_restores(sv.members, table, xs);
        },
        RumorType::Departure => {
            lemma_insert_all_restores(kind, spec_held(sv, kind), held, items);
            assert forall|i: int| 0 <= i < items.len() implies sv.members.contains_key(
                (#[trigger] items[i])->Departure_0.member_id,
            ) && sv.members[items[i]->Departure_0.member_id].health == Health::Departed by {
                assert(held.contains_key(spec_identity(items[i])));
            }
            lemma_departed_stay(sv.members, items);
        },
        _ => {
            lemma_insert_all_restores(kind, spec_held(sv, kind), held, items);
        },
    }
}

/// Snapshot fidelity: reading back a snapshot of everything that a node
/// held, into a node that is behind it, a node that holds nothing and the
/// node itself among them, gives a node that holds the same: the same
/// members with the same incarnations and healths, and the same rumors
/// under the same identities.
pub proof fn lemma_snapshot_fidelity(src: ServerView, target: ServerView, all: Seq<Seq<RumorView>>)
    requires
        spec_view_sound(src),
        spec_captures(src, all),
        spec_view_behind(target, src),
    ensures
        spec_restore_sections(target, all) == (ServerView {
            me: target.me,
            blocked: target.blocked,
            paused: target.paused,
            ..src
        }),
{
    let s0 = target;
    let s1 = spec_restore_upto(target, all, 1);
    let s2 = spec_restore_upto(target, all, 2);
    let s3 = spec_restore_upto(target, all, 3);
    let s4 = spec_restore_upto(target, all, 4);
    let s5 = spec_restore_upto(target, all, 5);
    let s6 = spec_restore_upto(target, all, 6);
    let s7 = spec_restore_upto(target, all, 7);
    assert(spec_restore_upto(target, all, 0) == s0);
    assert(spec_kind_behind(target, RumorType::Member, src));
    assert(spec_kind_behind(target, RumorType::Service, src));
    assert(spec_kind_behind(target, RumorType::ServiceConfig, src));
    assert(spec_kind_behind(target, RumorType::ServiceFile, src));
    assert(spec_kind_behind(target, RumorType::Election, src));
    assert(spec_kind_behind(target, RumorType::ElectionUpdate, src));
    assert(spec_kind_behind(target, RumorType::Departure, src));
    assert(spec_section_kind(0) == RumorType::Member);
    assert(spec_section_kind(1) == RumorType::Service);
    assert(spec_section_kind(2) == RumorType::ServiceConfig);
    assert(spec_section_kind(3) == RumorType::ServiceFile);
    assert(spec_section_kind(4) == RumorType::Election);
    assert(spec_section_kind(5) == RumorType::ElectionUpdate);
    assert(spec_section_kind(6) == RumorType::Departure);
    lemma_restore_kind(s0, RumorType::Member, src, all[0]);
    assert(s1 == spec_with_held(s0, RumorType::Member, src));
    lemma_restore_kind(s1, RumorType::Service, src, all[1]);
    assert(s2 == spec_with_held(s1, RumorType::Service, src));
    lemma_restore_kind(s2, RumorType::ServiceConfig, src, all[2]);
    assert(s3 == spec_with_held(s2, RumorType::ServiceConfig, src));
    lemma_restore_kind(s3, RumorType::ServiceFile, src, all[3]);
    assert(s4 == spec_with_held(s3, RumorType::ServiceFile, src));
    lemma_restore_kind(s4, RumorType::Election, src, all[4]);
    assert(s5 == spec_with_held(s4, RumorType::Election, src));
    lemma_restore_kind(s5, RumorType::ElectionUpdate, src, all[5]);
    assert(s6 == spec_with_held(s5, RumorType::ElectionUpdate, src));
    lemma_restore_kind(s6, RumorType::Departure, src, all[6]);
    assert(s7 == spec_with_held(s6, RumorType::Departure, src));
}

/// Dump, then load: the snapshot of everything that a node held is read as
/// the sections that were written, and read back into a node that is
/// behind, it gives a node that holds the same.
pub proof fn lemma_load_of_dump(src: ServerView, target: ServerView, all: Seq<Seq<RumorView>>)
    requires
        spec_view_sound(src),
        spec_captures(src, all),
        spec_dumpable(src.me.id, all),
        spec_view_behind(target, src),
    ensures
        spec_read(spec_dump(src.me.id, all)) == Some(all),
        spec_restore_sections(target, spec_read(spec_dump(src.me.id, all)).unwrap()) == (ServerView {
            me: target.me,
            blocked: target.blocked,
            paused: target.paused,
            ..src
        }),
{
    lemma_read_dump(src.me.id, all);
    lemma_snapshot_fidelity(src, target, all);
}

/// A node that has just started is behind every node that knows it in its
/// first incarnation or a later one, so a snapshot of such a node can be
/// read back into it.
pub proof fn lemma_fresh_is_behind(me: crate::member::MemberView, src: ServerView)
    requires
        src.members.contains_key(me.id),
        src.members[me.id] == (MembershipView {
            member: me,
            health: crate::member::Health::Alive,
        }) || crate::member_list::spec_wins(
            src.members[me.id],
            MembershipView { member: me, health: crate::member::Health::Alive },
        ),
    ensures
        spec_view_behind(crate::server::spec_fresh(me), src),
{
    let fresh = crate::server::spec_fresh(me);
    assert forall|kind: RumorType| #[trigger] spec_kind_behind(fresh, kind, src) by {
        match kind {
            RumorType::Member => {},
            _ => {},
        }
    }
}

/// Every node is behind itself, so its own snapshot can be read back into
/// it, and changes nothing.
pub proof fn lemma_behind_itself(sv: ServerView)
    ensures
        spec_view_behind(sv, sv),
{
    assert forall|kind: RumorType| #[trigger] spec_kind_behind(sv, kind, sv) by {
        match kind {
            RumorType::Member => {},
            _ => {},
        }
    }
}

impl DatFile {
    /// The snapshot of what a node holds.
    pub fn capture(server: &Server) -> (r: DatFile)
        requires
            server.wf(),
        ensures
            r.wf(),
            spec_captures(server@, r@),
            forall|s: int|
                0 <= s < SECTION_COUNT ==> (#[trigger] r@[s]).len() == server.spec_store(
                    spec_section_kind(s),
                ).spec_len(),
    {
        proof {
            server.lemma_parts();
            server.spec_store(RumorType::Member).lemma_sound();
            server.spec_store(RumorType::Service).lemma_sound();
            server.spec_store(RumorType::ServiceConfig).lemma_sound();
            server.spec_store(RumorType::ServiceFile).lemma_sound();
            server.spec_store(RumorType::Election).lemma_sound();
            server.spec_store(RumorType::ElectionUpdate).lemma_sound();
            server.spec_store(RumorType::Departure).lemma_sound();
        }
        let mut sections: Vec<Vec<Rumor>> = Vec::new();
        sections.push(server.member_list().store().list());
        sections.push(server.service_store().list());
        sections.push(server.service_config_store().list());
        sections.push(server.service_file_store().list());
        sections.push(server.election_store().list());
        sections.push(server.update_store().list());
        sections.push(server.departure_store().list());
        let r = DatFile { sections };
        proof {
            assert forall|s: int| 0 <= s < SECTION_COUNT implies spec_lists(
                spec_held(server@, spec_section_kind(s)),
                #[trigger] r@[s],
            ) && r@[s].len() == server.spec_store(spec_section_kind(s)).spec_len() by {
                let kind = spec_section_kind(s);
                assert(server.spec_store(kind)@ == spec_held(server@, kind));
                assert(r@[s] == spec_views(r.sections@[s]@));
            }
            assert forall|s: int, i: int|
                0 <= s < r.sections@.len() && 0 <= i < r.sections@[s]@.len() implies (
            #[trigger] r.sections@[s]@[i])@.kind() == spec_section_kind(s) by {
                let kind = spec_section_kind(s);
                let views = spec_views(r.sections@[s]@);
                assert(spec_lists(server.spec_store(kind)@, views));
                assert(server.spec_store(kind)@.contains_key(spec_identity(views[i])));
            }
        }
        r
    }

    /// Reads the snapshot back into a node, section by section and rumor by
    /// rumor: every rumor is taken in as [`Server::restore`] takes it in, by
    /// the rule that holds for live traffic.
    pub fn restore(&self, server: &mut Server)
        requires
            self.wf(),
            old(server).wf(),
        ensures
            final(server).wf(),
            final(server)@ == spec_restore_sections(old(server)@, self@),
    {
        let ghost all = self@;
        let mut s: usize = 0;
        while s < 7
            invariant
                s <= 7,
                self.wf(),
                all == self@,
                server.wf(),
                server@ == spec_restore_upto(old(server)@, all, s as int),
            decreases 7 - s,
        {
            let section = &self.sections[s];
            let ghost views = all[s as int];
            let ghost start = server@;
            let mut i: usize = 0;
            proof {
                assert(views.subrange(0, 0) =~= Seq::<RumorView>::empty());
            }
            while i < section.len()
                invariant
                    i <= section.len(),
                    views == spec_views(section@),
                    server.wf(),
                    server@ == spec_restore_all(start, views.subrange(0, i as int)),
                decreases section.len() - i,
            {
                proof {
                    let done = views.subrange(0, i as int);
                    let next = views.subrange(0, i + 1);
                    assert(next.drop_last() =~= done);
                    assert(next.last() == views[i as int]);
                }
                server.restore(section[i].clone());
                i = i + 1;
            }
            proof {
                assert(views.subrange(0, section@.len() as int) =~= views);
            }
            s = s + 1;
        }
    }
}

/// Writes the snapshot of what a node holds.
///
/// Fails with [`Error::TooLarge`] exactly where something that the node
/// holds cannot be kept.
pub fn dump(server: &Server) -> (r: Result<Vec<u8>, Error>)
    requires
        server.wf(),
    ensures
        r is Ok <==> spec_can_dump(*server),
        r matches Ok(b) ==> exists|all: Seq<Seq<RumorView>>| #[trigger]
            spec_captures(server@, all) && spec_dumpable(server@.me.id, all) && b@ == spec_dump(
                server@.me.id,
                all,
            ),
        r matches Err(e) ==> e == Error::TooLarge,
{
    let d = DatFile::capture(server);
    let r = d.write(server.member_id().as_slice());
    proof {
        let all = d@;
        let me = server@.me.id;
        d.lemma_sorted();
        server.lemma_parts();
        if spec_can_dump(*server) {
            assert forall|s: int, i: int|
                0 <= s < all.len() && 0 <= i < all[s].len() implies spec_storable(
                me,
                #[trigger] all[s][i],
            ) && all[s][i].kind() == spec_section_kind(s) by {
                let kind = spec_section_kind(s);
                assert(spec_lists(spec_held(server@, kind), all[s]));
                assert(server.spec_store(kind)@.contains_key(spec_identity(all[s][i])));
            }
            assert forall|s: int| 0 <= s < all.len() implies (#[trigger] all[s]).len()
                <= MAX_LEN by {
                assert(server.spec_store(spec_section_kind(s)).spec_len() <= MAX_LEN);
            }
        }
        if spec_dumpable(me, all) {
            assert forall|kind: RumorType| (#[trigger] server.spec_store(kind)).spec_len()
                <= MAX_LEN by {
                let s = kind.tag() - 1;
                assert(spec_section_kind(s) == kind);
                assert(all[s].len() <= MAX_LEN);
            }
            assert forall|kind: RumorType, k: Identity| #[trigger]
                server.spec_store(kind)@.contains_key(k) implies spec_storable(
                me,
                server.spec_store(kind)@[k],
            ) by {
                let s = kind.tag() - 1;
                assert(spec_section_kind(s) == kind);
                assert(spec_lists(spec_held(server@, kind), all[s]));
                assert(server.spec_store(kind)@ == spec_held(server@, kind));
                let i = choose|i: int| 0 <= i < all[s].len() && spec_identity(#[trigger] all[s][i]) == k;
                assert(spec_storable(me, all[s][i]));
            }
        }
    }
    r
}

/// Reads a snapshot back into a node.
///
/// Fails as [`DatFile::read`] does, and then leaves the node as it was.
pub fn load(server: &mut Server, buf: &[u8]) -> (r: Result<(), Error>)
    requires
        old(server).wf(),
    ensures
        final(server).wf(),
        r is Ok <==> spec_read(buf@) is Some,
        r is Ok ==> final(server)@ == spec_restore_sections(
            old(server)@,
            spec_read(buf@).unwrap(),
        ),
        r matches Err(e) ==> e == spec_read_error(buf@) && final(server)@ == old(server)@
            && spec_stores_kept(*old(server), *final(server), Set::empty()),
{
    match DatFile::read(buf) {
        Ok(d) => {
            d.restore(server);
            Ok(())
        },
        Err(e) => Err(e),
    }
}

} // verus!
