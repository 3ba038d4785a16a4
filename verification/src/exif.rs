//! What the indexer keeps of a file's EXIF entries: a mapping from tag names
//! to plain values, and the time at which the picture was taken.

use crate::calendar::{formatted_text, CivilDateTime, CivilFields};
use crate::text::{trim, trimmed};
use vstd::prelude::*;

verus! {

/// The tags that may hold the time at which a picture was taken.
#[derive(Clone, Copy, Debug, PartialEq, Eq, Structural)]
pub enum TimeTag {
    CreateDate,
    DateTimeOriginal,
    ModifyDate,
    /// Any other tag.
    Other,
}

/// A tag that the reader knows.
#[derive(Clone, Debug, PartialEq, Eq)]
pub struct ExifTag {
    pub name: String,
    pub kind: TimeTag,
}

/// The value of an entry.
#[derive(Clone, Debug, PartialEq, Eq)]
pub enum ExifValue {
    Text(String),
    URational(u32, u32),
    IRational(i32, i32),
    U8(u8),
    U16(u16),
    U32(u32),
    U64(u64),
    I8(i8),
    I16(i16),
    I32(i32),
    I64(i64),
    /// A number of 32 bits with a binary point, by its bits.
    F32(u32),
    /// A number of 64 bits with a binary point, by its bits.
    F64(u64),
    /// A time, as the local time that the file gives.
    Time(CivilDateTime),
    /// Bytes without a meaning, or a list of values.
    Other,
}

/// An entry as it is read from a file. `tag` is `None` for a tag that the
/// reader does not know, `value` for a value that could not be read.
#[derive(Clone, Debug, PartialEq, Eq)]
pub struct ExifEntry {
    pub tag: Option<ExifTag>,
    pub value: Option<ExifValue>,
}

/// What reading the EXIF data of a file gave.
#[derive(Clone, Debug, PartialEq, Eq)]
pub enum ExifRead {
    /// The file is of a kind that carries no EXIF data.
    Missing,
    /// The EXIF data could not be read.
    Unreadable,
    /// The entries, in the order of the file.
    Entries(Vec<ExifEntry>),
}

/// A value that is kept: text, a pair of numbers for a ratio, or a number.
#[derive(Clone, Debug, PartialEq, Eq)]
pub enum MetaValue {
    Text(String),
    Pair(i64, i64),
    Unsigned(u64),
    Signed(i64),
    /// A number of 32 bits with a binary point, by its bits.
    F32(u32),
    /// A number of 64 bits with a binary point, by its bits.
    F64(u64),
}

/// A tag name with the value that is kept for it.
#[derive(Clone, Debug, PartialEq, Eq)]
pub struct ExifField {
    pub name: String,
    pub value: MetaValue,
}

/// The values kept for a file, one for each tag name, in the order in which
/// the names first came.
#[derive(Clone, Debug, PartialEq, Eq)]
pub struct ExifMap {
    pub fields: Vec<ExifField>,
}

/// What a `MetaValue` stands for.
pub ghost enum MetaView {
    Text(Seq<char>),
    Pair(int, int),
    Unsigned(int),
    Signed(int),
    F32(int),
    F64(int),
}

impl View for MetaValue {
    type V = MetaView;

    open spec fn view(&self) -> MetaView {
        match *self {
            MetaValue::Text(s) => MetaView::Text(s@),
            MetaValue::Pair(a, b) => MetaView::Pair(a as int, b as int),
            MetaValue::Unsigned(n) => MetaView::Unsigned(n as int),
            MetaValue::Signed(n) => MetaView::Signed(n as int),
            MetaValue::F32(bits) => MetaView::F32(bits as int),
            MetaValue::F64(bits) => MetaView::F64(bits as int),
        }
    }
}

impl View for ExifField {
    type V = (Seq<char>, MetaView);

    open spec fn view(&self) -> (Seq<char>, MetaView) {
        (self.name@, self.value@)
    }
}

/// The names and values that a list of fields stands for.
pub open spec fn fields_view(fields: Seq<ExifField>) -> Seq<(Seq<char>, MetaView)> {
    Seq::new(fields.len(), |i: int| fields[i]@)
}

impl View for ExifMap {
    type V = Seq<(Seq<char>, MetaView)>;

    open spec fn view(&self) -> Seq<(Seq<char>, MetaView)> {
        fields_view(self.fields@)
    }
}

/// What is kept of a value: text without the white space around it, unless
/// nothing is left; a ratio as its two numbers; a number as it is; a time as
/// `YYYY-MM-DDTHH:MM:SS`. Nothing is kept of the other values.
pub open spec fn kept_value(value: ExifValue) -> Option<MetaView> {
    match value {
        ExifValue::Text(s) => if trimmed(s@).len() > 0 {
            Some(MetaView::Text(trimmed(s@)))
        } else {
            None
        },
        ExifValue::URational(a, b) => Some(MetaView::Pair(a as int, b as int)),
        ExifValue::IRational(a, b) => Some(MetaView::Pair(a as int, b as int)),
        ExifValue::U8(n) => Some(MetaView::Unsigned(n as int)),
        ExifValue::U16(n) => Some(MetaView::Unsigned(n as int)),
        ExifValue::U32(n) => Some(MetaView::Unsigned(n as int)),
        ExifValue::U64(n) => Some(MetaView::Unsigned(n as int)),
        ExifValue::I8(n) => Some(MetaView::Signed(n as int)),
        ExifValue::I16(n) => Some(MetaView::Signed(n as int)),
        ExifValue::I32(n) => Some(MetaView::Signed(n as int)),
        ExifValue::I64(n) => Some(MetaView::Signed(n as int)),
        ExifValue::F32(bits) => Some(MetaView::F32(bits as int)),
        ExifValue::F64(bits) => Some(MetaView::F64(bits as int)),
        ExifValue::Time(t) => Some(
            MetaView::Text(
                formatted_text(t@.year, t@.month, t@.day, t@.hour, t@.minute, t@.second),
            ),
        ),
        ExifValue::Other => None,
    }
}

/// What is kept of an entry, with the name under which it is kept. Nothing is
/// kept of an entry without a known tag or without a value.
pub open spec fn kept_field(entry: ExifEntry) -> Option<(Seq<char>, MetaView)> {
    match (entry.tag, entry.value) {
        (Some(tag), Some(value)) => match kept_value(value) {
            Some(kept) => Some((tag.name@, kept)),
            None => None,
        },
        _ => None,
    }
}

/// Where the name `name` stands in `fields`; the length of `fields` where it
/// does not.
pub open spec fn position_of(fields: Seq<(Seq<char>, MetaView)>, name: Seq<char>) -> int
    decreases fields.len(),
{
    if fields.len() == 0 {
        0
    } else if fields[0].0 == name {
        0
    } else {
        1 + position_of(fields.drop_first(), name)
    }
}

/// `fields` with `value` under `name`: in the place of the value that was
/// there, or at the end.
pub open spec fn with_field(
    fields: Seq<(Seq<char>, MetaView)>,
    name: Seq<char>,
    value: MetaView,
) -> Seq<(Seq<char>, MetaView)> {
    let at = position_of(fields, name);
    if at < fields.len() {
        fields.update(at, (name, value))
    } else {
        fields.push((name, value))
    }
}

/// The mapping for the entries of a file: of the entries with one name, the
/// last decides the value and the first the place.
pub open spec fn exif_fields(entries: Seq<ExifEntry>) -> Seq<(Seq<char>, MetaView)>
    decreases entries.len(),
{
    if entries.len() == 0 {
        Seq::empty()
    } else {
        let before = exif_fields(entries.drop_last());
        match kept_field(entries.last()) {
            Some((name, value)) => with_field(before, name, value),
            None => before,
        }
    }
}

/// The time that an entry holds under a known tag, with the kind of the tag.
pub open spec fn entry_time(entry: ExifEntry) -> Option<(TimeTag, CivilFields)> {
    match (entry.tag, entry.value) {
        (Some(tag), Some(ExifValue::Time(t))) => Some((tag.kind, t@)),
        _ => None,
    }
}

/// The entry holds a time under the tag `CreateDate`.
pub open spec fn is_create_date(entry: ExifEntry) -> bool {
    entry_time(entry) matches Some((kind, _)) && kind == TimeTag::CreateDate
}

/// The entry holds a time under `DateTimeOriginal` or `ModifyDate`.
pub open spec fn is_other_date(entry: ExifEntry) -> bool {
    entry_time(entry) matches Some((kind, _)) && (kind == TimeTag::DateTimeOriginal || kind
        == TimeTag::ModifyDate)
}

/// The time at which the picture was taken, as the entries give it: a time
/// under `CreateDate` replaces what was chosen before it; a time under
/// `DateTimeOriginal` or `ModifyDate` is taken only while none is chosen.
pub open spec fn resolved_time(entries: Seq<ExifEntry>) -> Option<CivilFields>
    decreases entries.len(),
{
    if entries.len() == 0 {
        None
    } else {
        let before = resolved_time(entries.drop_last());
        match entry_time(entries.last()) {
            Some((kind, time)) => if kind == TimeTag::CreateDate {
                Some(time)
            } else if kind != TimeTag::Other && before is None {
                Some(time)
            } else {
                before
            },
            None => before,
        }
    }
}

/// The mapping and the time for what was read of a file: none of either
/// without entries.
pub open spec fn exif_summary(read: ExifRead) -> (
    Option<Seq<(Seq<char>, MetaView)>>,
    Option<CivilFields>,
) {
    match read {
        ExifRead::Entries(entries) => (Some(exif_fields(entries@)), resolved_time(entries@)),
        _ => (None, None),
    }
}

/// What an optional time stands for.
pub open spec fn time_view(time: Option<CivilDateTime>) -> Option<CivilFields> {
    match time {
        Some(t) => Some(t@),
        None => None,
    }
}

/// What an optional mapping stands for.
pub open spec fn map_view(map: Option<ExifMap>) -> Option<Seq<(Seq<char>, MetaView)>> {
    match map {
        Some(m) => Some(m@),
        None => None,
    }
}

fn keep_value(value: &ExifValue) -> (kept: Option<MetaValue>)
    ensures
        match kept {
            Some(v) => kept_value(*value) == Some(v@),
            None => kept_value(*value) is None,
        },
{
    match value {
        ExifValue::Text(s) => {
            let rest: String = trim(s.as_str());
            if rest.as_str().is_empty() {
                None
            } else {
                Some(MetaValue::Text(rest))
            }
        },
        ExifValue::URational(a, b) => Some(MetaValue::Pair(*a as i64, *b as i64)),
        ExifValue::IRational(a, b) => Some(MetaValue::Pair(*a as i64, *b as i64)),
        ExifValue::U8(n) => Some(MetaValue::Unsigned(*n as u64)),
        ExifValue::U16(n) => Some(MetaValue::Unsigned(*n as u64)),
        ExifValue::U32(n) => Some(MetaValue::Unsigned(*n as u64)),
        ExifValue::U64(n) => Some(MetaValue::Unsigned(*n)),
        ExifValue::I8(n) => Some(MetaValue::Signed(*n as i64)),
        ExifValue::I16(n) => Some(MetaValue::Signed(*n as i64)),
        ExifValue::I32(n) => Some(MetaValue::Signed(*n as i64)),
        ExifValue::I64(n) => Some(MetaValue::Signed(*n)),
        ExifValue::F32(bits) => Some(MetaValue::F32(*bits)),
        ExifValue::F64(bits) => Some(MetaValue::F64(*bits)),
        ExifValue::Time(t) => Some(MetaValue::Text(t.to_iso_text())),
        ExifValue::Other => None,
    }
}

fn find_field(fields: &Vec<ExifField>, name: &String) -> (at: usize)
    ensures
        at == position_of(fields_view(fields@), name@),
        at <= fields.len(),
{
    let ghost all = fields_view(fields@);
    let mut i: usize = 0;
    assert(all.skip(0) =~= all);
    while i < fields.len()
        invariant
            i <= fields.len(),
            all == fields_view(fields@),
            position_of(all, name@) == i + position_of(all.skip(i as int), name@),
        decreases fields.len() - i,
    {
        assert(all.skip(i as int)[0] == all[i as int]);
        assert(all.skip(i as int).drop_first() =~= all.skip(i + 1));
        if fields[i].name == *name {
            return i;
        }
        i += 1;
    }
    assert(all.skip(i as int).len() == 0);
    i
}

impl ExifMap {
    /// A mapping without a name.
    pub fn new() -> (map: ExifMap)
        ensures
            map@ == Seq::<(Seq<char>, MetaView)>::empty(),
    {
        let map = ExifMap { fields: Vec::new() };
        assert(map@ =~= Seq::<(Seq<char>, MetaView)>::empty());
        map
    }

    /// Puts `value` under `name`: in the place of the value that was there,
    /// or at the end.
    pub fn put(&mut self, name: String, value: MetaValue)
        ensures
            final(self)@ == with_field(old(self)@, name@, value@),
    {
        let at: usize = find_field(&self.fields, &name);
        let ghost before = self@;
        let ghost pair = (name@, value@);
        if at < self.fields.len() {
            self.fields.set(at, ExifField { name, value });
            assert(self@ =~= before.update(at as int, pair));
        } else {
            self.fields.push(ExifField { name, value });
            assert(self@ =~= before.push(pair));
        }
    }
}

/// The mapping and the capture time for what was read of a file's EXIF data.
pub fn extract_exif(read: &ExifRead) -> (result: (Option<ExifMap>, Option<CivilDateTime>))
    ensures
        (map_view(result.0), time_view(result.1)) == exif_summary(*read),
{
    match read {
        ExifRead::Entries(entries) => {
            let mut map: ExifMap = ExifMap::new();
            let mut time: Option<CivilDateTime> = None;
            let mut i: usize = 0;
            while i < entries.len()
                invariant
                    i <= entries.len(),
                    map@ == exif_fields(entries@.take(i as int)),
                    time_view(time) == resolved_time(entries@.take(i as int)),
                decreases entries.len() - i,
            {
                assert(entries@.take(i + 1).drop_last() =~= entries@.take(i as int));
                assert(entries@.take(i + 1).last() == entries@[i as int]);
                let entry: &ExifEntry = &entries[i];
                match (&entry.tag, &entry.value) {
                    (Some(tag), Some(value)) => {
                        match value {
                            ExifValue::Time(t) => {
                                match tag.kind {
                                    TimeTag::CreateDate => {
                                        time = Some(*t);
                                    },
                                    TimeTag::DateTimeOriginal | TimeTag::ModifyDate => {
                                        if time.is_none() {
                                            time = Some(*t);
                                        }
                                    },
                                    TimeTag::Other => {},
                                }
                            },
                            _ => {},
                        }
                        match keep_value(value) {
                            Some(kept) => {
                                map.put(tag.name.clone(), kept);
                            },
                            None => {},
                        }
                    },
                    _ => {},
                }
                i += 1;
            }
            assert(entries@.take(i as int) =~= entries@);
            (Some(map), time)
        },
        _ => (None, None),
    }
}

proof fn lemma_no_date_no_time(entries: Seq<ExifEntry>)
    requires
        forall|j: int|
            0 <= j < entries.len() ==> !is_create_date(#[trigger] entries[j]) && !is_other_date(
                entries[j],
            ),
    ensures
        resolved_time(entries) is None,
    decreases entries.len(),
{
    if entries.len() > 0 {
        let before = entries.drop_last();
        assert forall|j: int| 0 <= j < before.len() implies !is_create_date(#[trigger] before[j])
            && !is_other_date(before[j]) by {
            assert(before[j] == entries[j]);
        }
        lemma_no_date_no_time(before);
        assert(!is_create_date(entries[entries.len() - 1]));
    }
}

/// Where the entries hold a time under `CreateDate`, the last such time is
/// the capture time, whatever stands under `DateTimeOriginal` and
/// `ModifyDate` and wherever those entries come.
pub proof fn law_create_date_decides(entries: Seq<ExifEntry>, i: int)
    requires
        0 <= i < entries.len(),
        is_create_date(entries[i]),
        forall|j: int| i < j < entries.len() ==> !is_create_date(#[trigger] entries[j]),
    ensures
        entry_time(entries[i]) matches Some((_, time)) && resolved_time(entries) == Some(time),
    decreases entries.len(),
{
    if i < entries.len() - 1 {
        let before = entries.drop_last();
        assert(before[i] == entries[i]);
        assert forall|j: int| i < j < before.len() implies !is_create_date(#[trigger] before[j]) by {
            assert(before[j] == entries[j]);
        }
        law_create_date_decides(before, i);
        assert(!is_create_date(entries[entries.len() - 1]));
    }
}

/// Where no entry holds a time under `CreateDate`, the first time under
/// `DateTimeOriginal` or `ModifyDate` is the capture time: which of the two
/// it is depends on the order of the entries alone.
pub proof fn law_first_other_date_decides(entries: Seq<ExifEntry>, i: int)
    requires
        0 <= i < entries.len(),
        is_other_date(entries[i]),
        forall|j: int| 0 <= j < entries.len() ==> !is_create_date(#[trigger] entries[j]),
        forall|j: int| 0 <= j < i ==> !is_other_date(#[trigger] entries[j]),
    ensures
        entry_time(entries[i]) matches Some((_, time)) && resolved_time(entries) == Some(time),
    decreases entries.len(),
{
    let before = entries.drop_last();
    assert(!is_create_date(entries[entries.len() - 1]));
    if i < entries.len() - 1 {
        assert(before[i] == entries[i]);
        assert forall|j: int| 0 <= j < before.len() implies !is_create_date(
            #[trigger] before[j],
        ) by {
            assert(before[j] == entries[j]);
        }
        assert forall|j: int| 0 <= j < i implies !is_other_date(#[trigger] before[j]) by {
            assert(before[j] == entries[j]);
        }
        law_first_other_date_decides(before, i);
    } else {
        assert forall|j: int| 0 <= j < before.len() implies !is_create_date(
            #[trigger] before[j],
        ) && !is_other_date(before[j]) by {
            assert(before[j] == entries[j]);
        }
        lemma_no_date_no_time(before);
    }
}

/// The value that stands under `name` in `fields`, if one does.
pub open spec fn value_under(fields: Seq<(Seq<char>, MetaView)>, name: Seq<char>) -> Option<
    MetaView,
> {
    let at = position_of(fields, name);
    if at < fields.len() {
        Some(fields[at].1)
    } else {
        None
    }
}

/// What the last entry of the name `name` of which something is kept gives.
pub open spec fn last_kept(entries: Seq<ExifEntry>, name: Seq<char>) -> Option<MetaView>
    decreases entries.len(),
{
    if entries.len() == 0 {
        None
    } else {
        match kept_field(entries.last()) {
            Some((kept_name, value)) => if kept_name == name {
                Some(value)
            } else {
                last_kept(entries.drop_last(), name)
            },
            None => last_kept(entries.drop_last(), name),
        }
    }
}

/// No name stands twice in `fields`.
pub open spec fn names_distinct(fields: Seq<(Seq<char>, MetaView)>) -> bool {
    forall|i: int, j: int|
        0 <= i < j < fields.len() ==> (#[trigger] fields[i]).0 != (#[trigger] fields[j]).0
}

proof fn lemma_position_of(fields: Seq<(Seq<char>, MetaView)>, name: Seq<char>)
    ensures
        0 <= position_of(fields, name) <= fields.len(),
        position_of(fields, name) < fields.len() ==> fields[position_of(fields, name)].0 == name,
        forall|j: int| 0 <= j < position_of(fields, name) ==> (#[trigger] fields[j]).0 != name,
    decreases fields.len(),
{
    if fields.len() > 0 && fields[0].0 != name {
        let rest = fields.drop_first();
        lemma_position_of(rest, name);
        let at = position_of(rest, name);
        if at < rest.len() {
            assert(rest[at] == fields[at + 1]);
        }
        assert forall|j: int| 0 <= j < at + 1 implies (#[trigger] fields[j]).0 != name by {
            if j > 0 {
                assert(rest[j - 1] == fields[j]);
            }
        }
    }
}

proof fn lemma_position_found(fields: Seq<(Seq<char>, MetaView)>, name: Seq<char>, at: int)
    requires
        0 <= at <= fields.len(),
        at < fields.len() ==> fields[at].0 == name,
        forall|j: int| 0 <= j < at ==> (#[trigger] fields[j]).0 != name,
    ensures
        position_of(fields, name) == at,
    decreases fields.len(),
{
    if fields.len() > 0 && at > 0 {
        let rest = fields.drop_first();
        assert(fields[0].0 != name);
        if at < fields.len() {
            assert(rest[at - 1] == fields[at]);
        }
        assert forall|j: int| 0 <= j < at - 1 implies (#[trigger] rest[j]).0 != name by {
            assert(rest[j] == fields[j + 1]);
        }
        lemma_position_found(rest, name, at - 1);
    }
}

/// Putting a value under a name changes what stands under that name, and
/// nothing else; names stay distinct.
proof fn lemma_with_field(
    fields: Seq<(Seq<char>, MetaView)>,
    name: Seq<char>,
    value: MetaView,
    other: Seq<char>,
)
    ensures
        value_under(with_field(fields, name, value), name) == Some(value),
        other != name ==> value_under(with_field(fields, name, value), other) == value_under(
            fields,
            other,
        ),
        names_distinct(fields) ==> names_distinct(with_field(fields, name, value)),
{
    let at = position_of(fields, name);
    let put = with_field(fields, name, value);
    lemma_position_of(fields, name);
    lemma_position_of(fields, other);
    assert forall|j: int| 0 <= j < at implies (#[trigger] put[j]).0 != name by {
        assert(put[j] == fields[j]);
    }
    lemma_position_found(put, name, at);
    if other != name {
        let k = position_of(fields, other);
        assert forall|j: int| 0 <= j < k implies (#[trigger] put[j]).0 != other by {
            if j != at {
                assert(put[j] == fields[j]);
            }
        }
        if k < fields.len() {
            assert(put[k] == fields[k]);
            lemma_position_found(put, other, k);
        } else {
            assert forall|j: int| 0 <= j < put.len() implies (#[trigger] put[j]).0 != other by {
                if j != at {
                    assert(put[j] == fields[j]);
                }
            }
            lemma_position_found(put, other, put.len() as int);
        }
    }
    if names_distinct(fields) {
        assert forall|i: int, j: int| 0 <= i < j < put.len() implies (#[trigger] put[i]).0 != (
        #[trigger] put[j]).0 by {
            if i != at && j != at {
                assert(put[i] == fields[i] && put[j] == fields[j]);
            } else if i == at {
                assert(put[j] == fields[j]);
                assert(fields[at].0 == name);
            } else {
                assert(put[i] == fields[i]);
                if at < fields.len() {
                    assert(fields[at].0 == name);
                }
            }
        }
    }
}

/// The mapping is a mapping: no name stands in it twice.
pub proof fn law_names_are_distinct(entries: Seq<ExifEntry>)
    ensures
        names_distinct(exif_fields(entries)),
    decreases entries.len(),
{
    if entries.len() > 0 {
        law_names_are_distinct(entries.drop_last());
        match kept_field(entries.last()) {
            Some((name, value)) => {
                lemma_with_field(exif_fields(entries.drop_last()), name, value, name);
            },
            None => {},
        }
    }
}

/// Under each name the mapping holds what the last entry of that name gives
/// of which something is kept; a name without such an entry is not in it.
pub proof fn law_last_entry_decides(entries: Seq<ExifEntry>, name: Seq<char>)
    ensures
        value_under(exif_fields(entries), name) == last_kept(entries, name),
    decreases entries.len(),
{
    if entries.len() > 0 {
        law_last_entry_decides(entries.drop_last(), name);
        match kept_field(entries.last()) {
            Some((kept_name, value)) => {
                lemma_with_field(exif_fields(entries.drop_last()), kept_name, value, name);
            },
            None => {},
        }
    } else {
        assert(position_of(exif_fields(entries), name) == 0);
    }
}

} // verus!
