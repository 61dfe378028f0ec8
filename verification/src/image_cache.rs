//! Previews that are kept, so that no image is decoded twice while it is looked at.

use crate::batch;
use crate::image_ops;
use crate::image_ops::{Rotation, TextOverlayConfig, TextPosition};
use crate::paths;
use crate::paths::FilePath;
use crate::raster;
use crate::raster::Raster;
use crate::text;
use std::hash::{Hash, Hasher};
use std::sync::Arc;
use vstd::prelude::*;

verus! {

/// The cache of `lru`, which drops what was not used for the longest time, carried as
/// it is.
#[verifier::external_type_specification]
#[verifier::external_body]
#[verifier::reject_recursive_types(K)]
#[verifier::reject_recursive_types(V)]
#[verifier::reject_recursive_types(S)]
pub struct ExLruCache<K, V, S>(lru::LruCache<K, V, S>);

/// What a preview is found by, in plain values: the components of the image's path,
/// its quarter turns, the longest side, and the signature of the text over it.
pub type PlainKey = (Vec<Vec<u8>>, u8, u32, u64);

/// A preview in plain values: its width, its height, its values, and its values as
/// they are drawn.
pub type PlainPreview = (u32, u32, Arc<Vec<u8>>, Arc<Vec<u8>>);

/// The cache that previews are kept in.
pub type PreviewTable = lru::LruCache<
    PlainKey,
    PlainPreview,
    std::hash::BuildHasherDefault<rapidhash::fast::RapidHasher<'static>>,
>;

/// What a preview is found by.
pub type KeyView = (Seq<Seq<u8>>, u8, u32, u64);

/// What a preview shows.
pub type PreviewView = (u32, u32, Seq<u8>, Seq<u8>);

/// What a preview is found by.
pub open spec fn key_view(key: PlainKey) -> KeyView {
    (paths::components(key.0@), key.1, key.2, key.3)
}

/// What a preview shows.
pub open spec fn preview_view(preview: PlainPreview) -> PreviewView {
    (preview.0, preview.1, preview.2@, preview.3@)
}

/// The previews that a cache holds, the one used last first.
pub uninterp spec fn held(table: PreviewTable) -> Seq<(KeyView, PreviewView)>;

/// How many previews a cache has room for.
pub uninterp spec fn room(table: PreviewTable) -> nat;

/// The place of the first preview with a key, or -1.
pub open spec fn place_of(entries: Seq<(KeyView, PreviewView)>, key: KeyView) -> int
    decreases entries.len(),
{
    if entries.len() == 0 {
        -1
    } else if entries[0].0 == key {
        0
    } else if place_of(entries.drop_first(), key) < 0 {
        -1
    } else {
        place_of(entries.drop_first(), key) + 1
    }
}

/// The preview that is held for a key.
pub open spec fn found(entries: Seq<(KeyView, PreviewView)>, key: KeyView) -> Option<PreviewView> {
    if place_of(entries, key) < 0 {
        None
    } else {
        Some(entries[place_of(entries, key)].1)
    }
}

/// The previews after one was used.
pub open spec fn used(entries: Seq<(KeyView, PreviewView)>, key: KeyView) -> Seq<
    (KeyView, PreviewView),
> {
    let at = place_of(entries, key);
    if at < 0 {
        entries
    } else {
        seq![entries[at]] + entries.remove(at)
    }
}

/// The previews after one was stored: it comes first. It takes the place of the one
/// with the same key, or, where all room is taken, of the one that was not used for
/// the longest time.
pub open spec fn stored(
    entries: Seq<(KeyView, PreviewView)>,
    room: nat,
    key: KeyView,
    preview: PreviewView,
) -> Seq<(KeyView, PreviewView)> {
    let at = place_of(entries, key);
    if at >= 0 {
        seq![(key, preview)] + entries.remove(at)
    } else if entries.len() == room {
        seq![(key, preview)] + entries.drop_last()
    } else {
        seq![(key, preview)] + entries
    }
}

/// `lru::LruCache::with_hasher`: an empty cache with room for so many previews. More
/// than the hash table behind it can make room for are left out.
#[verifier::external_body]
fn table_new(capacity: usize) -> (table: PreviewTable)
    requires
        0 < capacity <= usize::MAX / 128,
    ensures
        held(table) == Seq::<(KeyView, PreviewView)>::empty(),
        room(table) == capacity,
{
    PreviewTable::with_hasher(std::num::NonZeroUsize::new(capacity).unwrap(), Default::default())
}

/// `lru::LruCache::get`: what is held for the key, which counts as used from then on.
#[verifier::external_body]
fn table_get(table: &mut PreviewTable, key: &PlainKey) -> (preview: Option<PlainPreview>)
    ensures
        match preview {
            Some(p) => found(held(*old(table)), key_view(*key)) == Some(preview_view(p)),
            None => found(held(*old(table)), key_view(*key)) is None,
        },
        held(*final(table)) == used(held(*old(table)), key_view(*key)),
        room(*final(table)) == room(*old(table)),
{
    table.get(key).cloned()
}

/// `lru::LruCache::put`: holds the preview for the key, first of all.
#[verifier::external_body]
fn table_put(table: &mut PreviewTable, key: PlainKey, preview: PlainPreview)
    ensures
        held(*final(table)) == stored(
            held(*old(table)),
            room(*old(table)),
            key_view(key),
            preview_view(preview),
        ),
        room(*final(table)) == room(*old(table)),
{
    let _ = table.put(key, preview);
}

/// `lru::LruCache::contains`: whether something is held for the key, which does not
/// count as a use.
#[verifier::external_body]
fn table_contains(table: &PreviewTable, key: &PlainKey) -> (contains: bool)
    ensures
        contains == (found(held(*table), key_view(*key)) is Some),
{
    table.contains(key)
}

/// The values that a hasher of the kind that is used here may finish with once it was
/// handed the parts of a text overlay: template, number of the place, font size, color
/// and margin, in this order. Which of them it is rests on the machine and the compiler.
pub uninterp spec fn overlay_hashes(
    template: Seq<char>,
    place: isize,
    font_size: u32,
    color: (u8, u8, u8, u8),
    margin: u32,
) -> Set<u64>;

/// `rapidhash::fast::RapidHasher`, with its default seed: a hash of the parts of a text
/// overlay. It is one of the values that are possible for just these parts. Left unsaid
/// is which one: the crate does not promise the same value on all machines and with all
/// compilers.
#[verifier::external_body]
fn hash_overlay(
    template: &String,
    place: isize,
    font_size: u32,
    color: (u8, u8, u8, u8),
    margin: u32,
) -> (hash: u64)
    ensures
        overlay_hashes(template@, place, font_size, color, margin).contains(hash),
{
    let mut hasher = rapidhash::fast::RapidHasher::default();
    template.hash(&mut hasher);
    place.hash(&mut hasher);
    font_size.hash(&mut hasher);
    color.0.hash(&mut hasher);
    color.1.hash(&mut hasher);
    color.2.hash(&mut hasher);
    color.3.hash(&mut hasher);
    margin.hash(&mut hasher);
    hasher.finish()
}

/// The number of a place, counted in the order in which the places are listed.
pub open spec fn place_number(position: TextPosition) -> isize {
    match position {
        TextPosition::TopLeft => 0,
        TextPosition::TopRight => 1,
        TextPosition::BottomLeft => 2,
        TextPosition::BottomRight => 3,
        TextPosition::Center => 4,
    }
}

fn number_of_place(position: TextPosition) -> (number: isize)
    ensures
        number == place_number(position),
{
    match position {
        TextPosition::TopLeft => 0,
        TextPosition::TopRight => 1,
        TextPosition::BottomLeft => 2,
        TextPosition::BottomRight => 3,
        TextPosition::Center => 4,
    }
}

/// A signature of the text over a preview: 0 without text, otherwise a hash of
/// everything that the text looks like.
pub fn text_signature(text_config: Option<&TextOverlayConfig>) -> (signature: u64)
    ensures
        match text_config {
            Some(config) => overlay_hashes(
                config.text_template@,
                place_number(config.position),
                config.font_size.bits,
                (config.color.r, config.color.g, config.color.b, config.color.a),
                config.margin,
            ).contains(signature),
            None => signature == 0,
        },
{
    match text_config {
        Some(config) => hash_overlay(
            &config.text_template,
            number_of_place(config.position),
            config.font_size.bits,
            (config.color.r, config.color.g, config.color.b, config.color.a),
            config.margin,
        ),
        None => 0,
    }
}

/// The longest side of a preview where none is set.
pub const DEFAULT_PREVIEW_MAX_SIDE: u32 = 3200;

/// The smallest longest side that can be set.
pub const MIN_PREVIEW_MAX_SIDE: u32 = 512;

/// The largest longest side that can be set.
pub const MAX_PREVIEW_MAX_SIDE: u32 = 8192;

/// The longest side of a preview for a setting.
pub open spec fn max_side_for(setting: Option<Seq<char>>) -> nat {
    match setting {
        Some(s) => match text::read_unsigned(text::trimmed(s), u32::MAX as nat) {
            Some(n) => if n == 0 {
                DEFAULT_PREVIEW_MAX_SIDE as nat
            } else if n < MIN_PREVIEW_MAX_SIDE {
                MIN_PREVIEW_MAX_SIDE as nat
            } else if n > MAX_PREVIEW_MAX_SIDE {
                MAX_PREVIEW_MAX_SIDE as nat
            } else {
                n
            },
            None => DEFAULT_PREVIEW_MAX_SIDE as nat,
        },
        None => DEFAULT_PREVIEW_MAX_SIDE as nat,
    }
}

/// The longest side of a preview for a setting: a positive number, brought between
/// the smallest and the largest one, and otherwise the default.
pub fn preview_max_side(setting: &Option<String>) -> (side: u32)
    ensures
        side == max_side_for(text::optional_text(*setting)),
        MIN_PREVIEW_MAX_SIDE <= side <= MAX_PREVIEW_MAX_SIDE,
{
    let value = match setting {
        Some(s) => s,
        None => {
            return DEFAULT_PREVIEW_MAX_SIDE;
        },
    };
    let trimmed = text::trim(value.as_str());
    match text::parse_u32(trimmed.as_str()) {
        Some(n) => {
            if n == 0 {
                DEFAULT_PREVIEW_MAX_SIDE
            } else if n < MIN_PREVIEW_MAX_SIDE {
                MIN_PREVIEW_MAX_SIDE
            } else if n > MAX_PREVIEW_MAX_SIDE {
                MAX_PREVIEW_MAX_SIDE
            } else {
                n
            }
        },
        None => DEFAULT_PREVIEW_MAX_SIDE,
    }
}

/// A preview: its values, and the same as they are drawn, with red and blue exchanged.
#[derive(Debug)]
pub struct CachedImage {
    pub rgba: Arc<Vec<u8>>,
    pub preview: Arc<Vec<u8>>,
    pub width: u32,
    pub height: u32,
}

impl CachedImage {
    /// What the preview shows.
    pub open spec fn shown(&self) -> PreviewView {
        (self.width, self.height, self.rgba@, self.preview@)
    }
}

impl Clone for CachedImage {
    /// The same preview; its values are shared.
    fn clone(&self) -> (copy: Self)
        ensures
            copy.shown() == self.shown(),
    {
        CachedImage {
            rgba: self.rgba.clone(),
            preview: self.preview.clone(),
            width: self.width,
            height: self.height,
        }
    }
}

/// The previews that were used last.
pub struct ImageCache {
    pub table: PreviewTable,
    pub max_size: u32,
}

/// No two previews have the same key.
pub open spec fn keys_differ(entries: Seq<(KeyView, PreviewView)>) -> bool {
    forall|i: int, j: int|
        0 <= i < j < entries.len() ==> (#[trigger] entries[i]).0 != (#[trigger] entries[j]).0
}

proof fn lemma_place(entries: Seq<(KeyView, PreviewView)>, key: KeyView)
    ensures
        -1 <= place_of(entries, key) < entries.len(),
        place_of(entries, key) >= 0 ==> entries[place_of(entries, key)].0 == key,
        forall|i: int|
            0 <= i < entries.len() && (place_of(entries, key) < 0 || i < place_of(entries, key))
                ==> (#[trigger] entries[i]).0 != key,
    decreases entries.len(),
{
    if entries.len() > 0 && entries[0].0 != key {
        let rest = entries.drop_first();
        lemma_place(rest, key);
        assert forall|i: int|
            0 <= i < entries.len() && (place_of(entries, key) < 0 || i < place_of(
                entries,
                key,
            )) implies (#[trigger] entries[i]).0 != key by {
            if i > 0 {
                assert(entries[i] == rest[i - 1]);
            }
        }
        if place_of(rest, key) >= 0 {
            assert(entries[place_of(rest, key) + 1] == rest[place_of(rest, key)]);
        }
    }
}

proof fn lemma_place_is_unique(entries: Seq<(KeyView, PreviewView)>, key: KeyView, at: int)
    requires
        keys_differ(entries),
        0 <= at < entries.len(),
        entries[at].0 == key,
    ensures
        place_of(entries, key) == at,
{
    lemma_place(entries, key);
    let first = place_of(entries, key);
    if first < 0 {
        assert(entries[at].0 != key);
    } else if first < at {
        assert(entries[first].0 != entries[at].0);
    } else if first > at {
        assert(entries[at].0 != key);
    }
}

proof fn lemma_kept_distinct(
    entries: Seq<(KeyView, PreviewView)>,
    room: nat,
    key: KeyView,
    preview: PreviewView,
)
    requires
        keys_differ(entries),
        entries.len() <= room,
        room > 0,
    ensures
        keys_differ(used(entries, key)),
        used(entries, key).len() == entries.len(),
        keys_differ(stored(entries, room, key, preview)),
        stored(entries, room, key, preview).len() <= room,
{
    lemma_place(entries, key);
    let at = place_of(entries, key);
    let after = stored(entries, room, key, preview);
    if at >= 0 {
        let rest = entries.remove(at);
        assert forall|i: int, j: int| 0 <= i < j < after.len() implies (#[trigger] after[i]).0 != (
        #[trigger] after[j]).0 by {
            let source_j = if j - 1 < at {
                j - 1
            } else {
                j
            };
            assert(after[j] == entries[source_j]);
            if i == 0 {
                if source_j < at {
                    assert(entries[source_j].0 != entries[at].0);
                } else {
                    assert(entries[at].0 != entries[source_j].0);
                }
            } else {
                let source_i = if i - 1 < at {
                    i - 1
                } else {
                    i
                };
                assert(after[i] == entries[source_i]);
                assert(entries[source_i].0 != entries[source_j].0);
            }
        }
        let moved = used(entries, key);
        assert forall|i: int, j: int| 0 <= i < j < moved.len() implies (#[trigger] moved[i]).0 != (
        #[trigger] moved[j]).0 by {
            assert(moved[i].0 == after[i].0);
            assert(moved[j].0 == after[j].0);
        }
    } else {
        assert forall|i: int, j: int| 0 <= i < j < after.len() implies (#[trigger] after[i]).0 != (
        #[trigger] after[j]).0 by {
            assert(after[j] == entries[j - 1]);
            if i > 0 {
                assert(after[i] == entries[i - 1]);
            }
        }
    }
}

/// A preview was stored in a cache.
pub open spec fn is_stored(
    before: ImageCache,
    after: ImageCache,
    key: KeyView,
    preview: PreviewView,
) -> bool {
    &&& after.max_size == before.max_size
    &&& after.capacity() == before.capacity()
    &&& after.kept() == stored(before.kept(), before.capacity(), key, preview)
}

impl ImageCache {
    /// The previews that are kept, the one used last first.
    pub open spec fn kept(&self) -> Seq<(KeyView, PreviewView)> {
        held(self.table)
    }

    /// How many previews there is room for.
    pub open spec fn capacity(&self) -> nat {
        room(self.table)
    }

    /// There are no more previews than there is room for, and no two for the same key.
    pub open spec fn wf(&self) -> bool {
        &&& self.kept().len() <= self.capacity()
        &&& self.capacity() > 0
        &&& keys_differ(self.kept())
    }

    /// What the preview of an image is found by.
    pub open spec fn key(&self, path: Seq<u8>, rotation: Rotation, signature: u64) -> KeyView {
        (paths::parts_of(path), rotation.quarters(), self.max_size, signature)
    }

    /// An empty cache with room for so many previews, or for ten where that is none.
    /// The setting is the longest side that a preview can have.
    pub fn new(capacity: usize, setting: &Option<String>) -> (cache: ImageCache)
        requires
            capacity <= usize::MAX / 128,
        ensures
            cache.wf(),
            cache.kept().len() == 0,
            cache.capacity() == (if capacity == 0 {
                10
            } else {
                capacity as nat
            }),
            cache.max_size == max_side_for(text::optional_text(*setting)),
    {
        let room: usize = if capacity == 0 {
            10
        } else {
            capacity
        };
        ImageCache { table: table_new(room), max_size: preview_max_side(setting) }
    }

    fn plain_key(&self, path: &FilePath, rotation: Rotation, signature: u64) -> (key: PlainKey)
        ensures
            key_view(key) == self.key(path@, rotation, signature),
    {
        (path.parts(), rotation.quarter_turns(), self.max_size, signature)
    }

    /// The preview of an image, where it is kept. It counts as used from then on.
    pub fn lookup(&mut self, path: &FilePath, rotation: Rotation, signature: u64) -> (image: Option<
        CachedImage,
    >)
        requires
            old(self).wf(),
        ensures
            final(self).wf(),
            final(self).max_size == old(self).max_size,
            final(self).capacity() == old(self).capacity(),
            final(self).kept() == used(old(self).kept(), old(self).key(path@, rotation, signature)),
            match image {
                Some(i) => found(old(self).kept(), old(self).key(path@, rotation, signature))
                    == Some(i.shown()),
                None => found(
                    old(self).kept(),
                    old(self).key(path@, rotation, signature),
                ) is None,
            },
    {
        let key = self.plain_key(path, rotation, signature);
        proof {
            lemma_kept_distinct(
                self.kept(),
                self.capacity(),
                self.key(path@, rotation, signature),
                arbitrary(),
            );
        }
        match table_get(&mut self.table, &key) {
            Some((width, height, rgba, preview)) => Some(
                CachedImage { rgba, preview, width, height },
            ),
            None => None,
        }
    }

    /// Keeps the preview of an image.
    pub fn store(&mut self, path: &FilePath, rotation: Rotation, signature: u64, image: CachedImage)
        requires
            old(self).wf(),
        ensures
            final(self).wf(),
            is_stored(
                *old(self),
                *final(self),
                old(self).key(path@, rotation, signature),
                image.shown(),
            ),
    {
        let key = self.plain_key(path, rotation, signature);
        proof {
            lemma_kept_distinct(
                self.kept(),
                self.capacity(),
                self.key(path@, rotation, signature),
                image.shown(),
            );
        }
        let preview = (image.width, image.height, image.rgba, image.preview);
        table_put(&mut self.table, key, preview);
    }

    /// The images of which no preview is kept.
    pub open spec fn wanting(
        &self,
        paths: Seq<Seq<u8>>,
        rotation: Rotation,
        signature: u64,
    ) -> Seq<Seq<u8>> {
        paths.filter(
            |path: Seq<u8>| found(self.kept(), self.key(path, rotation, signature)) is None,
        )
    }

    /// The images of which no preview is kept, in the same order.
    pub fn missing(&self, paths: &Vec<FilePath>, rotation: Rotation, signature: u64) -> (missing:
        Vec<FilePath>)
        ensures
            paths::paths_view(missing@) == self.wanting(
                paths::paths_view(paths@),
                rotation,
                signature,
            ),
    {
        let ghost all = paths::paths_view(paths@);
        let ghost wanted = |path: Seq<u8>|
            found(self.kept(), self.key(path, rotation, signature)) is None;
        let mut missing: Vec<FilePath> = Vec::new();
        let mut i: usize = 0;
        proof {
            reveal(Seq::filter);
            assert(all.take(0) =~= Seq::<Seq<u8>>::empty());
            assert(paths::paths_view(missing@) =~= all.take(0).filter(wanted));
        }
        while i < paths.len()
            invariant
                i <= paths@.len(),
                all == paths::paths_view(paths@),
                wanted == (|path: Seq<u8>|
                    found(self.kept(), self.key(path, rotation, signature)) is None),
                paths::paths_view(missing@) == all.take(i as int).filter(wanted),
            decreases paths@.len() - i,
        {
            let key = self.plain_key(&paths[i], rotation, signature);
            let kept = table_contains(&self.table, &key);
            let ghost before = missing@;
            if !kept {
                missing.push(paths[i].clone());
            }
            proof {
                reveal(Seq::filter);
                let next = all.take(i + 1);
                assert(next.drop_last() =~= all.take(i as int));
                assert(next.last() == paths@[i as int]@);
                assert(wanted(next.last()) == !kept);
                if !kept {
                    assert(paths::paths_view(missing@) =~= paths::paths_view(before).push(
                        next.last(),
                    ));
                }
            }
            i += 1;
        }
        assert(all.take(all.len() as int) =~= all);
        missing
    }
}

/// A picture brought to the size of a preview: made to fit into a square where it is
/// too large for it.
pub open spec fn is_sized(before: Raster, after: Raster, side: u32) -> bool {
    if before.width > side || before.height > side {
        image_ops::is_thumbnail(before, after, side)
    } else {
        raster::is_opaque_version(before, after)
    }
}

/// The text that is laid over a preview.
pub open spec fn text_layer(config: Option<&TextOverlayConfig>, stamp: Option<&Raster>) -> Option<
    (TextPosition, u32, Raster),
> {
    match (config, stamp) {
        (Some(c), Some(s)) => Some((c.position, c.margin, *s)),
        _ => None,
    }
}

/// A preview of a picture: turned, brought to size, and with its text over it.
pub open spec fn is_preview(
    before: Raster,
    shown: PreviewView,
    rotation: Rotation,
    side: u32,
    layer: Option<(TextPosition, u32, Raster)>,
) -> bool {
    exists|a: Raster, b: Raster, c: Raster|
        #![trigger raster::is_turned(before, a, rotation.turn()), is_sized(a, b, side), batch::stamp_step(b, c, layer)]
        a.wf() && b.wf() && c.wf() && raster::is_turned(before, a, rotation.turn()) && is_sized(
            a,
            b,
            side,
        ) && batch::stamp_step(b, c, layer) && shown == (
            c.width,
            c.height,
            c.pixels@,
            raster::exchanged(c.pixels@),
        )
}

/// Makes the preview of a picture, with no side longer than `max_size`.
pub fn preview_of(
    img: &Raster,
    max_size: u32,
    rotation: Rotation,
    text_config: Option<&TextOverlayConfig>,
    stamp: Option<&Raster>,
) -> (image: CachedImage)
    requires
        img.wf(),
        img.width > max_size || img.height > max_size ==> image_ops::can_fit(
            batch::turned_size(img.width, img.height, rotation).0,
            batch::turned_size(img.width, img.height, rotation).1,
            max_size,
            max_size,
        ),
        batch::stamp_fits(text_layer(text_config, stamp)),
    ensures
        is_preview(*img, image.shown(), rotation, max_size, text_layer(text_config, stamp)),
{
    let turned = image_ops::rotate_image(img, rotation);
    let ghost a = turned;
    let sized = if image_ops::exceeds(turned.width, turned.height, max_size) {
        image_ops::generate_thumbnail(turned, max_size)
    } else {
        turned.into_rgba()
    };
    let ghost b = sized;
    assert(is_sized(a, b, max_size));
    let titled = match (text_config, stamp) {
        (Some(config), Some(s)) => image_ops::overlay_text_with_stamp(sized, config, s),
        _ => sized,
    };
    assert(batch::stamp_step(b, titled, text_layer(text_config, stamp)));
    assert(titled.pixel_bytes == 4);
    assert(titled.pixels@.len() % 4 == 0);
    let preview = raster::render_preview_image(titled.pixels.as_slice());
    assert(raster::is_turned(*img, a, rotation.turn()));
    CachedImage {
        width: titled.width,
        height: titled.height,
        rgba: Arc::new(titled.pixels),
        preview: Arc::new(preview),
    }
}

impl ImageCache {
    /// Makes the preview of a picture, where it could be loaded.
    pub fn decode_image(
        &self,
        loaded: Option<Raster>,
        rotation: Rotation,
        text_config: Option<&TextOverlayConfig>,
        stamp: Option<&Raster>,
    ) -> (image: Option<CachedImage>)
        requires
            loaded matches Some(img) ==> img.wf() && (img.width > self.max_size || img.height
                > self.max_size ==> image_ops::can_fit(
                batch::turned_size(img.width, img.height, rotation).0,
                batch::turned_size(img.width, img.height, rotation).1,
                self.max_size,
                self.max_size,
            )),
            batch::stamp_fits(text_layer(text_config, stamp)),
        ensures
            image is Some == loaded is Some,
            loaded matches Some(img) ==> image matches Some(i) && is_preview(
                img,
                i.shown(),
                rotation,
                self.max_size,
                text_layer(text_config, stamp),
            ),
    {
        match loaded {
            Some(img) => Some(preview_of(&img, self.max_size, rotation, text_config, stamp)),
            None => None,
        }
    }
}

/// What was stored is found, until something else is stored; and it is found first.
pub proof fn stored_previews_are_found(
    entries: Seq<(KeyView, PreviewView)>,
    room: nat,
    key: KeyView,
    preview: PreviewView,
)
    ensures
        found(stored(entries, room, key, preview), key) == Some(preview),
        used(stored(entries, room, key, preview), key) == stored(entries, room, key, preview),
{
    let after = stored(entries, room, key, preview);
    assert(after[0] == (key, preview));
    assert(place_of(after, key) == 0);
    assert(seq![after[0]] + after.remove(0) =~= after);
}

/// Storing a preview drops no other one, unless all room is taken: then it drops the
/// one that was not used for the longest time.
pub proof fn only_the_oldest_is_dropped(
    entries: Seq<(KeyView, PreviewView)>,
    room: nat,
    key: KeyView,
    preview: PreviewView,
    other: KeyView,
)
    requires
        keys_differ(entries),
        entries.len() <= room,
        room > 0,
        other != key,
        found(entries, other) is Some,
    ensures
        found(stored(entries, room, key, preview), other) == found(entries, other) || (found(
            entries,
            key,
        ) is None && entries.len() == room && entries.last().0 == other && found(
            stored(entries, room, key, preview),
            other,
        ) is None),
{
    lemma_place(entries, other);
    lemma_place(entries, key);
    lemma_kept_distinct(entries, room, key, preview);
    let at = place_of(entries, key);
    let was = place_of(entries, other);
    let after = stored(entries, room, key, preview);
    if at >= 0 {
        let now = if was < at {
            was + 1
        } else {
            was
        };
        assert(after[now] == entries[was]);
        lemma_place_is_unique(after, other, now);
    } else if entries.len() == room && was == entries.len() - 1 {
        lemma_place(after, other);
        if place_of(after, other) >= 0 {
            let now = place_of(after, other);
            assert(now > 0);
            assert(after[now] == entries[now - 1]);
            assert(entries[now - 1].0 != entries[was].0);
        }
    } else {
        assert(after[was + 1] == entries[was]);
        lemma_place_is_unique(after, other, was + 1);
    }
}

/// Looking a preview up changes only which one was used last.
pub proof fn lookups_keep_all_previews(
    entries: Seq<(KeyView, PreviewView)>,
    key: KeyView,
    other: KeyView,
)
    requires
        keys_differ(entries),
    ensures
        found(used(entries, key), other) == found(entries, other),
{
    lemma_place(entries, key);
    lemma_place(entries, other);
    let at = place_of(entries, key);
    let was = place_of(entries, other);
    let after = used(entries, key);
    if at >= 0 {
        lemma_kept_distinct(entries, entries.len(), key, arbitrary());
        if was >= 0 {
            let now = if was < at {
                was + 1
            } else if was == at {
                0
            } else {
                was
            };
            assert(after[now] == entries[was]);
            lemma_place_is_unique(after, other, now);
        } else {
            lemma_place(after, other);
            let now = place_of(after, other);
            if now == 0 {
                assert(after[0] == entries[at]);
            } else if now > 0 {
                let source = if now - 1 < at {
                    now - 1
                } else {
                    now
                };
                assert(after[now] == entries[source]);
            }
        }
    }
}

/// The states of a cache in which previews of some images are stored one after the other.
pub open spec fn are_stored(
    caches: Seq<ImageCache>,
    made: Seq<(Seq<u8>, PreviewView)>,
    rotation: Rotation,
    signature: u64,
) -> bool {
    &&& caches.len() == made.len() + 1
    &&& forall|i: int|
        #![trigger made[i]]
        0 <= i < made.len() ==> is_stored(
            caches[i],
            caches[i + 1],
            caches[i].key(made[i].0, rotation, signature),
            made[i].1,
        )
}

/// An image is found in a cache with one of the previews that were made of it.
pub open spec fn shows_one_of(
    cache: ImageCache,
    made: Seq<(Seq<u8>, PreviewView)>,
    path: Seq<u8>,
    rotation: Rotation,
    signature: u64,
) -> bool {
    exists|j: int|
        0 <= j < made.len() && paths::same_path((#[trigger] made[j]).0, path) && found(
            cache.kept(),
            cache.key(path, rotation, signature),
        ) == Some(made[j].1)
}

/// Where there is room for all of them, every preview that was made ahead is found
/// afterwards, and so is, as it was, every one that was kept before: of these none is
/// made again, since only images without a preview are asked for. `made` holds the
/// previews of those images that could be decoded, in whatever order they are stored.
pub proof fn previews_made_ahead_are_found(
    caches: Seq<ImageCache>,
    paths: Seq<Seq<u8>>,
    made: Seq<(Seq<u8>, PreviewView)>,
    rotation: Rotation,
    signature: u64,
    path: Seq<u8>,
)
    requires
        caches.len() > 0,
        caches[0].wf(),
        caches[0].kept().len() + made.len() <= caches[0].capacity(),
        forall|i: int|
            #![trigger made[i]]
            0 <= i < made.len() ==> caches[0].wanting(paths, rotation, signature).contains(
                made[i].0,
            ),
        are_stored(caches, made, rotation, signature),
        paths.contains(path),
    ensures
        caches.last().wf(),
        found(caches[0].kept(), caches[0].key(path, rotation, signature)) is Some ==> found(
            caches.last().kept(),
            caches.last().key(path, rotation, signature),
        ) == found(caches[0].kept(), caches[0].key(path, rotation, signature)),
        (exists|i: int| 0 <= i < made.len() && paths::same_path(
            (#[trigger] made[i]).0,
            path,
        )) ==> shows_one_of(
            caches.last(),
            made,
            path,
            rotation,
            signature,
        ),
{
    let key = caches[0].key(path, rotation, signature);
    if found(caches[0].kept(), key) is Some {
        assert forall|i: int| 0 <= i < made.len() implies !paths::same_path(
            (#[trigger] made[i]).0,
            path,
        ) by {
            let first = caches[0];
            let wanted = |path: Seq<u8>|
                found(first.kept(), first.key(path, rotation, signature)) is None;
            let missing = first.wanting(paths, rotation, signature);
            assert(missing == paths.filter(wanted));
            let m = choose|m: int| 0 <= m < missing.len() && missing[m] == made[i].0;
            paths.lemma_filter_pred(wanted, m);
        }
    }
    lemma_stored_ahead(caches, made, rotation, signature, path);
}

proof fn lemma_stored_ahead(
    caches: Seq<ImageCache>,
    made: Seq<(Seq<u8>, PreviewView)>,
    rotation: Rotation,
    signature: u64,
    path: Seq<u8>,
)
    requires
        caches.len() > 0,
        caches[0].wf(),
        caches[0].kept().len() + made.len() <= caches[0].capacity(),
        are_stored(caches, made, rotation, signature),
    ensures
        caches.last().wf(),
        caches.last().max_size == caches[0].max_size,
        caches.last().capacity() == caches[0].capacity(),
        caches.last().kept().len() <= caches[0].kept().len() + made.len(),
        (forall|i: int| 0 <= i < made.len() ==> !paths::same_path((#[trigger] made[i]).0, path)) && found(
            caches[0].kept(),
            caches[0].key(path, rotation, signature),
        ) is Some ==> found(caches.last().kept(), caches.last().key(path, rotation, signature))
            == found(caches[0].kept(), caches[0].key(path, rotation, signature)),
        (exists|i: int| 0 <= i < made.len() && paths::same_path(
            (#[trigger] made[i]).0,
            path,
        )) ==> shows_one_of(
            caches.last(),
            made,
            path,
            rotation,
            signature,
        ),
    decreases made.len(),
{
    if made.len() > 0 {
        let n = made.len() - 1;
        let earlier = made.drop_last();
        let before = caches.drop_last();
        assert forall|i: int| #![trigger earlier[i]] 0 <= i < earlier.len() implies is_stored(
            before[i],
            before[i + 1],
            before[i].key(earlier[i].0, rotation, signature),
            earlier[i].1,
        ) by {
            assert(earlier[i] == made[i]);
        }
        lemma_stored_ahead(before, earlier, rotation, signature, path);
        let last = before.last();
        assert(last == caches[n]);
        assert(caches.last() == caches[n + 1]);
        let (stored_path, preview) = made[n];
        let stored_key = last.key(stored_path, rotation, signature);
        let key = last.key(path, rotation, signature);
        lemma_kept_distinct(last.kept(), last.capacity(), stored_key, preview);
        lemma_place(last.kept(), stored_key);
        assert(caches.last().kept().len() <= last.kept().len() + 1);
        stored_previews_are_found(last.kept(), last.capacity(), stored_key, preview);
        if paths::same_path(stored_path, path) {
            assert(paths::same_path(made[n].0, path));
            assert(shows_one_of(caches.last(), made, path, rotation, signature));
        } else if found(last.kept(), key) is Some {
            only_the_oldest_is_dropped(
                last.kept(),
                last.capacity(),
                stored_key,
                preview,
                key,
            );
            if shows_one_of(last, earlier, path, rotation, signature) {
                let j = choose|j: int|
                    0 <= j < earlier.len() && paths::same_path((#[trigger] earlier[j]).0, path) && found(
                        last.kept(),
                        key,
                    ) == Some(earlier[j].1);
                assert(made[j] == earlier[j]);
                assert(shows_one_of(caches.last(), made, path, rotation, signature));
            }
        }
        if exists|i: int| 0 <= i < made.len() && paths::same_path((#[trigger] made[i]).0, path) {
            let i = choose|i: int|
                0 <= i < made.len() && paths::same_path((#[trigger] made[i]).0, path);
            if !paths::same_path(stored_path, path) {
                assert(paths::same_path(earlier[i].0, path));
            }
        }
        assert forall|i: int|
            (forall|m: int| 0 <= m < made.len() ==> !paths::same_path(
                (#[trigger] made[m]).0,
                path,
            )) && 0 <= i
                < earlier.len() implies !paths::same_path(
            (#[trigger] earlier[i]).0,
            path,
        ) by {
            assert(made[i] == earlier[i]);
        }
    }
}

/// A preview is found by its key, at the first place that has it, and none is found just when
/// no place has it.
pub proof fn previews_are_found_by_their_keys(entries: Seq<(KeyView, PreviewView)>, key: KeyView)
    ensures
        found(entries, key) is None <==> forall|i: int|
            0 <= i < entries.len() ==> (#[trigger] entries[i]).0 != key,
        found(entries, key) matches Some(preview) ==> exists|i: int|
            0 <= i < entries.len() && (#[trigger] entries[i]).0 == key && entries[i].1 == preview
                && forall|j: int| 0 <= j < i ==> (#[trigger] entries[j]).0 != key,
{
    lemma_place(entries, key);
    let at = place_of(entries, key);
    if at >= 0 {
        assert(entries[at].0 == key);
    }
}

/// A preview that is looked up comes first, and all others stand behind it in their order; a
/// lookup that finds nothing changes nothing.
pub proof fn looked_up_previews_come_first(
    entries: Seq<(KeyView, PreviewView)>,
    at: int,
    i: int,
)
    requires
        keys_differ(entries),
        0 <= at < entries.len(),
    ensures
        ({
            let after = used(entries, entries[at].0);
            &&& after.len() == entries.len()
            &&& after[0] == entries[at]
            &&& 0 <= i < at ==> after[i + 1] == entries[i]
            &&& at < i < entries.len() ==> after[i] == entries[i]
        }),
        forall|key: KeyView|
            found(entries, key) is None ==> #[trigger] used(entries, key) == entries,
{
    lemma_place(entries, entries[at].0);
    let found_at = place_of(entries, entries[at].0);
    assert(found_at == at) by {
        if found_at < 0 || at < found_at {
            assert(entries[at].0 != entries[at].0);
        } else if found_at < at {
            assert(entries[found_at].0 != entries[at].0);
        }
    }
}

/// A preview that is stored comes first. With the key of another one it takes its place;
/// otherwise all others stay, but that the last one goes where there is no room.
pub proof fn stored_previews_come_first(
    entries: Seq<(KeyView, PreviewView)>,
    room: nat,
    key: KeyView,
    preview: PreviewView,
)
    requires
        entries.len() <= room,
        room > 0,
    ensures
        ({
            let after = stored(entries, room, key, preview);
            &&& after[0] == (key, preview)
            &&& found(entries, key) is Some ==> after.len() == entries.len()
            &&& found(entries, key) is None && entries.len() < room ==> after.len()
                == entries.len() + 1 && after.drop_first() == entries
            &&& found(entries, key) is None && entries.len() == room ==> after.len() == room
                && after.drop_first() == entries.drop_last()
        }),
{
    lemma_place(entries, key);
    let after = stored(entries, room, key, preview);
    if place_of(entries, key) < 0 {
        if entries.len() == room {
            assert(after.drop_first() =~= entries.drop_last());
        } else {
            assert(after.drop_first() =~= entries);
        }
    }
}

/// The places of text have different numbers, which the text's signature is made of.
pub proof fn places_have_different_numbers(a: TextPosition, b: TextPosition)
    ensures
        a != b ==> place_number(a) != place_number(b),
        0 <= place_number(a) <= 4,
        place_number(TextPosition::TopLeft) < place_number(TextPosition::TopRight)
            < place_number(TextPosition::BottomLeft) < place_number(TextPosition::BottomRight)
            < place_number(TextPosition::Center),
{
}

/// The longest side of a preview is the number that is set, but no less than 512 and no more
/// than 8192, and 3200 where none is set, or zero, or what is set is no number.
pub proof fn previews_have_the_side_that_is_set(n: nat, setting: Seq<char>)
    ensures
        512 <= n <= 8192 ==> max_side_for(Some(text::decimal(n))) == n,
        0 < n < 512 ==> max_side_for(Some(text::decimal(n))) == 512,
        8192 < n <= u32::MAX ==> max_side_for(Some(text::decimal(n))) == 8192,
        max_side_for(Some(text::decimal(0))) == 3200,
        n > u32::MAX ==> max_side_for(Some(text::decimal(n))) == 3200,
        max_side_for(None) == 3200,
        text::read_unsigned(text::trimmed(setting), u32::MAX as nat) is None ==> max_side_for(
            Some(setting),
        ) == 3200,
        max_side_for(Some(seq![' '] + setting)) == max_side_for(Some(setting)),
{
    text::only_digits_are_read(setting, n, u32::MAX as nat);
    text::only_digits_are_read(setting, 0, u32::MAX as nat);
    lemma_number_is_trimmed(n);
    lemma_number_is_trimmed(0);
    text::space_around_is_dropped(setting, ' ');
}

proof fn lemma_number_is_trimmed(n: nat)
    ensures
        text::trimmed(text::decimal(n)) == text::decimal(n),
{
    text::decimal_reads_back(n);
    let d = text::decimal(n);
    assert(text::is_digit(d[0]));
    assert(text::is_digit(d[d.len() - 1]));
    text::space_around_is_dropped(d, ' ');
}

/// A preview is kept for an image, a turn and a text: what is kept for others is not taken for
/// it. How the path is written does not matter.
pub proof fn previews_are_kept_apart(
    cache: ImageCache,
    a: Seq<u8>,
    b: Seq<u8>,
    r: Rotation,
    s: Rotation,
    x: u64,
    y: u64,
)
    ensures
        cache.key(a, r, x) == cache.key(b, s, y) <==> paths::same_path(a, b) && r == s && x == y,
{
    image_ops::rotations_are_told_apart(r, s);
}

/// The images that previews are made of are those without one, in their order.
pub proof fn just_images_without_preview_are_wanted(
    cache: ImageCache,
    a: Seq<Seq<u8>>,
    b: Seq<Seq<u8>>,
    path: Seq<u8>,
    rotation: Rotation,
    signature: u64,
)
    ensures
        cache.wanting(a + b, rotation, signature) == cache.wanting(a, rotation, signature)
            + cache.wanting(b, rotation, signature),
        found(cache.kept(), cache.key(path, rotation, signature)) is None ==> cache.wanting(
            seq![path],
            rotation,
            signature,
        ) == seq![path],
        found(cache.kept(), cache.key(path, rotation, signature)) is Some ==> cache.wanting(
            seq![path],
            rotation,
            signature,
        ).len() == 0,
{
    let wanted = |path: Seq<u8>| found(cache.kept(), cache.key(path, rotation, signature)) is None;
    Seq::filter_distributes_over_add(a, b, wanted);
    reveal(Seq::filter);
    assert(seq![path].drop_last() =~= Seq::<Seq<u8>>::empty());
    assert(Seq::<Seq<u8>>::empty().filter(wanted) =~= Seq::<Seq<u8>>::empty());
    assert(Seq::<Seq<u8>>::empty().push(path) =~= seq![path]);
}

/// A picture with no side longer than the preview's keeps its size and its values of 8 bits;
/// any other one is made to fit.
pub proof fn only_large_pictures_are_made_smaller(before: Raster, after: Raster, side: u32)
    requires
        is_sized(before, after, side),
    ensures
        before.width <= side && before.height <= side ==> after.width == before.width
            && after.height == before.height && after.pixel_bytes == 4 && after.pixels@
            == raster::opaque_values(
            before.pixels@,
            before.pixel_bytes as int,
            before.width * before.height,
        ),
        before.width > side || before.height > side ==> image_ops::is_thumbnail(
            before,
            after,
            side,
        ),
{
}

/// A preview has the same values twice, once as they are stored and once as they are drawn. A
/// small picture without text is shown turned and else as it is.
pub proof fn previews_show_the_turned_picture(
    before: Raster,
    shown: PreviewView,
    rotation: Rotation,
    side: u32,
    layer: Option<(TextPosition, u32, Raster)>,
)
    requires
        is_preview(before, shown, rotation, side, layer),
    ensures
        shown.3 == raster::exchanged(shown.2),
        layer is None && before.width <= side && before.height <= side ==> (
            shown.0,
            shown.1,
        ) == batch::turned_size(before.width, before.height, rotation) && exists|turned: Raster| #[trigger]
            raster::is_turned(before, turned, rotation.turn()) && shown.2 == raster::opaque_values(
                turned.pixels@,
                turned.pixel_bytes as int,
                turned.width * turned.height,
            ),
{
    let (a, b, c) = choose|a: Raster, b: Raster, c: Raster|
        #![trigger raster::is_turned(before, a, rotation.turn()), is_sized(a, b, side), batch::stamp_step(b, c, layer)]
        a.wf() && b.wf() && c.wf() && raster::is_turned(before, a, rotation.turn()) && is_sized(
            a,
            b,
            side,
        ) && batch::stamp_step(b, c, layer) && shown == (
            c.width,
            c.height,
            c.pixels@,
            raster::exchanged(c.pixels@),
        );
    assert(raster::is_turned(before, a, rotation.turn()));
    batch::turned_pictures_have_the_foretold_size(before, a, rotation);
}

/// Text is laid over a preview where there is some and a stamp was made of it, at its own
/// place and margin.
pub proof fn text_has_its_place_on_previews(config: &TextOverlayConfig, stamp: &Raster)
    ensures
        text_layer(Some(config), Some(stamp)) == Some((config.position, config.margin, *stamp)),
        text_layer(None, Some(stamp)) is None,
        text_layer(Some(config), None) is None,
{
}

/// Storing a preview changes neither the side that previews should have nor how many there is
/// room for.
pub proof fn storing_keeps_side_and_room(
    before: ImageCache,
    after: ImageCache,
    key: KeyView,
    preview: PreviewView,
)
    requires
        is_stored(before, after, key, preview),
    ensures
        after.max_size == before.max_size,
        after.capacity() == before.capacity(),
{
}

}
