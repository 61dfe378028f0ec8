//! Readings that are kept, so that no image is read twice.

use crate::ocr_result::{Detection, OcrResult};
use crate::paths;
use crate::paths::FilePath;
use crate::score::Score;
use vstd::prelude::*;

verus! {

/// The hasher of `rapidhash`, carried as it is.
#[verifier::external_type_specification]
#[verifier::external_body]
pub struct ExRapidHasher<
    's,
    const AVALANCHE: bool,
    const SPONGE: bool,
    const COMPACT: bool,
    const PROTECTED: bool,
>(rapidhash::inner::RapidHasher<'s, AVALANCHE, SPONGE, COMPACT, PROTECTED>);

/// The standard builder of default hashers, carried as it is.
#[verifier::external_type_specification]
#[verifier::external_body]
#[verifier::reject_recursive_types(H)]
pub struct ExBuildHasherDefault<H>(std::hash::BuildHasherDefault<H>);

/// The concurrent hash table of `scc`, carried as it is.
#[verifier::external_type_specification]
#[verifier::external_body]
#[verifier::reject_recursive_types(K)]
#[verifier::reject_recursive_types(V)]
#[verifier::reject_recursive_types(H)]
pub struct ExSccMap<K, V, H: std::hash::BuildHasher>(scc::HashMap<K, V, H>);

/// A reading in plain values: the number, the pattern of its confidence, and the
/// same of everything that was found.
pub type PlainReading = (String, u32, Vec<(String, u32)>);

/// The table that readings are kept in, by the components of the image's path.
pub type ReadingTable = scc::HashMap<
    Vec<Vec<u8>>,
    PlainReading,
    std::hash::BuildHasherDefault<rapidhash::fast::RapidHasher<'static>>,
>;

/// What a reading says.
pub type ReadingView = (Seq<char>, u32, Seq<(Seq<char>, u32)>);

/// What a reading in plain values says.
pub open spec fn plain_view(reading: PlainReading) -> ReadingView {
    (
        reading.0@,
        reading.1,
        Seq::new(reading.2@.len(), |i: int| (reading.2@[i].0@, reading.2@[i].1)),
    )
}

/// What a reading says.
pub open spec fn reading_view(result: OcrResult) -> ReadingView {
    (
        result.text@,
        result.confidence.bits,
        Seq::new(
            result.all_detections@.len(),
            |i: int|
                (result.all_detections@[i].text@, result.all_detections@[i].confidence.bits),
        ),
    )
}

/// The readings that a table holds, by path.
pub uninterp spec fn readings(table: ReadingTable) -> Map<Seq<Seq<u8>>, ReadingView>;

/// `scc::HashMap::default`: an empty table.
#[verifier::external_body]
fn table_new() -> (table: ReadingTable)
    ensures
        (readings(table) == Map::<Seq<Seq<u8>>, ReadingView>::empty()),
{
    ReadingTable::default()
}

/// `scc::HashMap::read_sync`: a copy of what is held for the path.
#[verifier::external_body]
fn table_read(table: &ReadingTable, parts: &Vec<Vec<u8>>) -> (found: Option<PlainReading>)
    ensures
        found is Some <==> readings(*table).dom().contains(paths::components(parts@)),
        found matches Some(r) ==> plain_view(r) == readings(
            *table,
        )[paths::components(parts@)],
{
    table.read_sync(parts, |_, reading| reading.clone())
}

/// `scc::HashMap::insert_sync`: holds the reading for the path, unless one is held
/// already, which then stays.
#[verifier::external_body]
fn table_insert(table: &mut ReadingTable, parts: Vec<Vec<u8>>, reading: PlainReading)
    ensures
        readings(*final(table)) == (if readings(*old(table)).dom().contains(
            paths::components(parts@),
        ) {
            readings(*old(table))
        } else {
            readings(*old(table)).insert(
                paths::components(parts@),
                plain_view(reading),
            )
        }),
{
    let _ = table.insert_sync(parts, reading);
}

/// `scc::HashMap::clear_sync`: holds nothing any more.
#[verifier::external_body]
fn table_clear(table: &mut ReadingTable)
    ensures
        (readings(*final(table)) == Map::<Seq<Seq<u8>>, ReadingView>::empty()),
{
    table.clear_sync();
}

/// `scc::HashMap::len`: how many readings are held. The table adds up the entries of its
/// buckets. While it grows an entry may stand in an older row of buckets, but is taken
/// out of that count as it moves; nobody else uses the table during the call, so that
/// each entry is counted once.
#[verifier::external_body]
fn table_len(table: &mut ReadingTable) -> (len: usize)
    ensures
        len == readings(*old(table)).len(),
        readings(*final(table)) == readings(*old(table)),
{
    table.len()
}

/// How many readings are kept.
pub const OCR_CACHE_MAX_SIZE: usize = 16_384;

/// Readings that are kept, by the path of their image.
pub struct OcrCache {
    pub table: ReadingTable,
}

fn to_plain(result: &OcrResult) -> (plain: PlainReading)
    ensures
        plain_view(plain) == reading_view(*result),
{
    let mut detections: Vec<(String, u32)> = Vec::new();
    let mut i: usize = 0;
    while i < result.all_detections.len()
        invariant
            i <= result.all_detections@.len(),
            detections@.len() == i,
            forall|j: int|
                0 <= j < i ==> (#[trigger] detections@[j]).0@ == result.all_detections@[j].text@
                    && detections@[j].1 == result.all_detections@[j].confidence.bits,
        decreases result.all_detections@.len() - i,
    {
        let d = &result.all_detections[i];
        detections.push((d.text.clone(), d.confidence.bits));
        i += 1;
    }
    let plain = (result.text.clone(), result.confidence.bits, detections);
    assert(plain_view(plain).2 =~= reading_view(*result).2);
    plain
}

fn from_plain(plain: &PlainReading) -> (result: OcrResult)
    ensures
        reading_view(result) == plain_view(*plain),
{
    let mut all_detections: Vec<Detection> = Vec::new();
    let mut i: usize = 0;
    while i < plain.2.len()
        invariant
            i <= plain.2@.len(),
            all_detections@.len() == i,
            forall|j: int|
                0 <= j < i ==> (#[trigger] all_detections@[j]).text@ == plain.2@[j].0@
                    && all_detections@[j].confidence.bits == plain.2@[j].1,
        decreases plain.2@.len() - i,
    {
        let d = &plain.2[i];
        all_detections.push(Detection { text: d.0.clone(), confidence: Score { bits: d.1 } });
        i += 1;
    }
    let result = OcrResult {
        text: plain.0.clone(),
        confidence: Score { bits: plain.1 },
        all_detections,
    };
    assert(reading_view(result).2 =~= plain_view(*plain).2);
    result
}

impl OcrCache {
    /// The readings that are kept.
    pub open spec fn kept(&self) -> Map<Seq<Seq<u8>>, ReadingView> {
        readings(self.table)
    }

    /// No more readings are kept than there is room for.
    pub open spec fn wf(&self) -> bool {
        self.kept().dom().finite() && self.kept().len() <= OCR_CACHE_MAX_SIZE
    }

    /// Nothing is kept yet.
    pub fn new() -> (cache: OcrCache)
        ensures
            cache.wf(),
            cache.kept() == Map::<Seq<Seq<u8>>, ReadingView>::empty(),
    {
        OcrCache { table: table_new() }
    }

    /// The reading that is kept for an image.
    pub fn get_cached_ocr(&self, path: &FilePath) -> (result: Option<OcrResult>)
        ensures
            result is Some <==> self.kept().dom().contains(paths::parts_of(path@)),
            result matches Some(r) ==> reading_view(r) == self.kept()[paths::parts_of(
                path@,
            )],
    {
        let key = path.parts();
        match table_read(&self.table, &key) {
            Some(plain) => Some(from_plain(&plain)),
            None => None,
        }
    }

    /// Keeps a reading, unless one is kept for its image already. When there is no
    /// room, everything that was kept is forgotten first.
    pub fn cache_ocr_result(&mut self, path: &FilePath, result: &OcrResult)
        requires
            old(self).wf(),
        ensures
            final(self).wf(),
            final(self).kept() == with_reading(
                old(self).kept(),
                paths::parts_of(path@),
                reading_view(*result),
            ),
    {
        let key = path.parts();
        if table_len(&mut self.table) >= OCR_CACHE_MAX_SIZE {
            table_clear(&mut self.table);
        }
        let plain = to_plain(result);
        table_insert(&mut self.table, key, plain);
    }
}

/// The readings that are kept after one was added: it is kept unless there is one for
/// its image. Where there is no room for more, all others are forgotten.
pub open spec fn with_reading(
    kept: Map<Seq<Seq<u8>>, ReadingView>,
    path: Seq<Seq<u8>>,
    reading: ReadingView,
) -> Map<Seq<Seq<u8>>, ReadingView> {
    if kept.len() >= OCR_CACHE_MAX_SIZE {
        Map::<Seq<Seq<u8>>, ReadingView>::empty().insert(path, reading)
    } else if kept.dom().contains(path) {
        kept
    } else {
        kept.insert(path, reading)
    }
}

/// The readings that are kept after several were added, one after the other.
pub open spec fn with_readings(
    kept: Map<Seq<Seq<u8>>, ReadingView>,
    added: Seq<(Seq<Seq<u8>>, ReadingView)>,
) -> Map<Seq<Seq<u8>>, ReadingView>
    decreases added.len(),
{
    if added.len() == 0 {
        kept
    } else {
        with_reading(with_readings(kept, added.drop_last()), added.last().0, added.last().1)
    }
}

/// As long as there is room, a reading that is kept stays as it is, whatever is added,
/// also for the same image.
pub proof fn kept_readings_are_not_replaced(
    kept: Map<Seq<Seq<u8>>, ReadingView>,
    path: Seq<Seq<u8>>,
    other: Seq<Seq<u8>>,
    reading: ReadingView,
)
    requires
        kept.dom().contains(path),
        kept.len() < OCR_CACHE_MAX_SIZE,
    ensures
        with_reading(kept, other, reading).dom().contains(path),
        with_reading(kept, other, reading)[path] == kept[path],
{
}

/// No image is read twice while there is room: what was kept for an image is given back
/// for it, however many readings were added since.
pub proof fn readings_stay_while_there_is_room(
    kept: Map<Seq<Seq<u8>>, ReadingView>,
    path: Seq<Seq<u8>>,
    reading: ReadingView,
    added: Seq<(Seq<Seq<u8>>, ReadingView)>,
)
    requires
        kept.dom().finite(),
        kept.len() + 1 + added.len() <= OCR_CACHE_MAX_SIZE,
    ensures
        ({
            let first = with_reading(kept, path, reading);
            let all = with_readings(first, added);
            &&& all.dom().contains(path)
            &&& all[path] == first[path]
            &&& !kept.dom().contains(path) ==> all[path] == reading
        }),
{
    let first = with_reading(kept, path, reading);
    lemma_one_more(kept, path, reading);
    lemma_some_more(first, added);
    assert(with_readings(first, added).dom().contains(path));
}

proof fn lemma_one_more(
    kept: Map<Seq<Seq<u8>>, ReadingView>,
    path: Seq<Seq<u8>>,
    reading: ReadingView,
)
    requires
        kept.dom().finite(),
        kept.len() < OCR_CACHE_MAX_SIZE,
    ensures
        with_reading(kept, path, reading).dom().finite(),
        with_reading(kept, path, reading).len() <= kept.len() + 1,
        with_reading(kept, path, reading).dom().contains(path),
{
}

proof fn lemma_some_more(
    kept: Map<Seq<Seq<u8>>, ReadingView>,
    added: Seq<(Seq<Seq<u8>>, ReadingView)>,
)
    requires
        kept.dom().finite(),
        kept.len() + added.len() <= OCR_CACHE_MAX_SIZE,
    ensures
        with_readings(kept, added).dom().finite(),
        with_readings(kept, added).len() <= kept.len() + added.len(),
        forall|path: Seq<Seq<u8>>|
            kept.dom().contains(path) ==> #[trigger] with_readings(kept, added).dom().contains(path)
                && with_readings(kept, added)[path] == kept[path],
    decreases added.len(),
{
    if added.len() > 0 {
        lemma_some_more(kept, added.drop_last());
        lemma_one_more(with_readings(kept, added.drop_last()), added.last().0, added.last().1);
    }
}

/// A reading that is added is kept for its image, unless there is one already. There is room
/// for 16384; where there is no more, all others are forgotten first.
pub proof fn readings_are_kept_for_their_images(
    kept: Map<Seq<Seq<u8>>, ReadingView>,
    path: Seq<Seq<u8>>,
    other: Seq<Seq<u8>>,
    reading: ReadingView,
)
    requires
        other != path,
    ensures
        ({
            let after = with_reading(kept, path, reading);
            &&& after.dom().contains(path)
            &&& kept.len() < 16384 && kept.dom().contains(path) ==> after == kept
            &&& kept.len() < 16384 && !kept.dom().contains(path) ==> after[path] == reading
            &&& kept.len() < 16384 ==> (after.dom().contains(other) <==> kept.dom().contains(other))
                && (kept.dom().contains(other) ==> after[other] == kept[other])
            &&& kept.len() >= 16384 ==> after[path] == reading && !after.dom().contains(other)
        }),
{
}

/// A reading is kept with its number, its confidence, and the text and the confidence of
/// everything that was found, in their order.
pub proof fn readings_are_kept_whole(a: OcrResult, b: OcrResult, i: int)
    requires
        reading_view(a) == reading_view(b),
    ensures
        a.text@ == b.text@,
        a.confidence == b.confidence,
        a.all_detections@.len() == b.all_detections@.len(),
        0 <= i < a.all_detections@.len() ==> a.all_detections@[i].text@ == b.all_detections@[i].text@
            && a.all_detections@[i].confidence == b.all_detections@[i].confidence,
{
    let found = reading_view(a).2;
    let other = reading_view(b).2;
    assert(found == other);
    assert(found.len() == a.all_detections@.len());
    assert(other.len() == b.all_detections@.len());
    if 0 <= i < a.all_detections@.len() {
        assert(found[i] == (a.all_detections@[i].text@, a.all_detections@[i].confidence.bits));
        assert(other[i] == (b.all_detections@[i].text@, b.all_detections@[i].confidence.bits));
    }
}

/// A reading that is held in plain values says the same as the reading.
pub proof fn plain_readings_say_the_same(plain: PlainReading, read: OcrResult, i: int)
    requires
        plain_view(plain) == reading_view(read),
    ensures
        plain.0@ == read.text@,
        plain.1 == read.confidence.bits,
        plain.2@.len() == read.all_detections@.len(),
        0 <= i < plain.2@.len() ==> plain.2@[i].0@ == read.all_detections@[i].text@ && plain.2@[i].1
            == read.all_detections@[i].confidence.bits,
{
    let held = plain_view(plain).2;
    let found = reading_view(read).2;
    assert(held == found);
    assert(held.len() == plain.2@.len());
    assert(found.len() == read.all_detections@.len());
    if 0 <= i < plain.2@.len() {
        assert(held[i] == (plain.2@[i].0@, plain.2@[i].1));
        assert(found[i] == (
            read.all_detections@[i].text@,
            read.all_detections@[i].confidence.bits,
        ));
    }
}

}
