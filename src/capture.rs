use crate::bytes::slice_to_vec;
use crate::entry::{ClipItem, ContentType};
use crate::history::{id_taken, index_of, opened, retimed};
use crate::storage::ClipStorage;
use crate::text::{decode_utf8_lossy, lossy_utf8_of, string_of_chars};
use crate::transcode::{
    create_thumbnail, full_image_of, image_to_bytes, pixels_png_of, process_full_image,
    thumbnail_of, PixelBuffer,
};
use vstd::prelude::*;
use vstd::utf8::encode_utf8;

verus! {

/// How long text written by the application itself is not captured again.
pub const SELF_COPY_GRACE_MS: u64 = 2000;

/// Relies on uuid's `Uuid::new_v4` and its hyphenated rendering: a random id
/// of 36 characters.
#[verifier::external_body]
fn new_clip_id() -> (r: String)
    ensures
        r@.len() == 36,
{
    uuid::Uuid::new_v4().to_string()
}

/// Relies on chrono's `Utc::now().timestamp()`: the current time in Unix
/// seconds. Nothing is promised of its value.
#[verifier::external_body]
fn unix_now() -> (r: i64) {
    chrono::Utc::now().timestamp()
}

/// A fresh, unpinned entry for `content` with a new id and the current time.
pub fn new_candidate(content: Vec<u8>, content_type: ContentType) -> (r: ClipItem)
    ensures
        r@.content == content@,
        r@.content_type == content_type,
        !r@.is_pinned,
        r@.pin_order is None,
        r@.id.len() == 36,
{
    ClipItem {
        id: new_clip_id(),
        content,
        content_type,
        timestamp: unix_now(),
        is_pinned: false,
        pin_order: None,
    }
}

/// The last value the watcher saw for each modality.
pub struct Watcher {
    last_text: String,
    last_image: Option<Vec<u8>>,
}

impl Watcher {
    /// The last text seen.
    pub closed spec fn last_text_spec(&self) -> Seq<char> {
        self.last_text@
    }

    /// The last picture seen, in its canonical encoding.
    pub closed spec fn last_image_spec(&self) -> Option<Seq<u8>> {
        match self.last_image {
            Some(b) => Some(b@),
            None => None,
        }
    }

    /// A watcher that has seen nothing.
    pub fn new() -> (r: Watcher)
        ensures
            r.last_text_spec() == Seq::<char>::empty(),
            r.last_image_spec() is None,
    {
        Watcher { last_text: String::new(), last_image: None }
    }

    /// Reports whether `text` is a change: non-empty and different from the
    /// last text seen. A change becomes the new baseline.
    pub fn observe_text(&mut self, text: &String) -> (changed: bool)
        ensures
            changed == (text@.len() > 0 && text@ != old(self).last_text_spec()),
            final(self).last_text_spec() == (if changed { text@ } else { old(self).last_text_spec() }),
            final(self).last_image_spec() == old(self).last_image_spec(),
    {
        if text.as_str().is_empty() || *text == self.last_text {
            return false;
        }
        self.last_text = text.clone();
        true
    }

    /// Reports whether the picture `png` differs from the last one seen, and
    /// makes it the baseline.
    pub fn observe_image(&mut self, png: &Vec<u8>) -> (changed: bool)
        ensures
            changed == (old(self).last_image_spec() != Some(png@)),
            final(self).last_image_spec() == Some(png@),
            final(self).last_text_spec() == old(self).last_text_spec(),
    {
        let changed = match &self.last_image {
            Some(b) => !crate::bytes::bytes_equal(b, png),
            None => true,
        };
        self.last_image = Some(slice_to_vec(png.as_slice()));
        changed
    }
}

/// The text the application itself last wrote to the clipboard, with the
/// instant (in milliseconds) until which it is not captured again.
pub struct SelfCopyMarker {
    text: Option<String>,
    expires_at_ms: u64,
}

/// The deadline that a mark made at `now_ms` carries.
pub open spec fn mark_deadline(now_ms: u64) -> int {
    if now_ms + SELF_COPY_GRACE_MS <= u64::MAX {
        now_ms + SELF_COPY_GRACE_MS
    } else {
        u64::MAX as int
    }
}

/// Text `t` seen at `now_ms` is the application's own copy under `marker`.
pub open spec fn marker_suppresses(marker: Option<(Seq<char>, int)>, t: Seq<char>, now_ms: u64) -> bool {
    match marker {
        Some((m, deadline)) => m == t && now_ms < deadline,
        None => false,
    }
}

/// A text signal is captured: a change against the watcher's last text that
/// is not the application's own copy.
pub open spec fn captures_text(last: Seq<char>, marker: Option<(Seq<char>, int)>, t: Seq<char>, now_ms: u64) -> bool {
    t.len() > 0 && t != last && !marker_suppresses(marker, t, now_ms)
}

/// Text written by the application at `marked_at` and then reported by the
/// watcher is not captured while less than the grace period has passed, and
/// is captured once it has.
pub proof fn lemma_self_copy_grace(last: Seq<char>, t: Seq<char>, marked_at: u64, now_ms: u64)
    requires
        t.len() > 0,
        t != last,
        marked_at + SELF_COPY_GRACE_MS <= u64::MAX,
    ensures
        captures_text(last, Some((t, mark_deadline(marked_at))), t, now_ms) <==> now_ms >= marked_at
            + SELF_COPY_GRACE_MS,
{
}

impl SelfCopyMarker {
    /// The marked text and its deadline.
    pub closed spec fn spec(&self) -> Option<(Seq<char>, int)> {
        match self.text {
            Some(t) => Some((t@, self.expires_at_ms as int)),
            None => None,
        }
    }

    /// No mark.
    pub fn new() -> (r: SelfCopyMarker)
        ensures
            r.spec() is None,
    {
        SelfCopyMarker { text: None, expires_at_ms: 0 }
    }

    /// Marks `text`, about to be written by the application at `now_ms`.
    pub fn set(&mut self, text: String, now_ms: u64)
        ensures
            final(self).spec() == Some((text@, mark_deadline(now_ms))),
    {
        self.expires_at_ms = if now_ms <= u64::MAX - SELF_COPY_GRACE_MS {
            now_ms + SELF_COPY_GRACE_MS
        } else {
            u64::MAX
        };
        self.text = Some(text);
    }

    /// Drops the mark.
    pub fn clear(&mut self)
        ensures
            final(self).spec() is None,
    {
        self.text = None;
    }

    /// Whether `text`, seen at `now_ms`, is the application's own copy.
    pub fn suppresses(&self, text: &String, now_ms: u64) -> (r: bool)
        ensures
            r == marker_suppresses(self.spec(), text@, now_ms),
    {
        match &self.text {
            Some(t) => *t == *text && now_ms < self.expires_at_ms,
            None => false,
        }
    }
}

/// The entry to store for a text signal: `None` when the text is empty or
/// unchanged, or when it is the application's own copy within the grace
/// period. The watcher's baseline advances on every change, captured or not.
pub fn on_text_change(watcher: &mut Watcher, marker: &SelfCopyMarker, text: String, now_ms: u64) -> (r: Option<ClipItem>)
    ensures
        ({
            let changed = text@.len() > 0 && text@ != old(watcher).last_text_spec();
            &&& final(watcher).last_text_spec() == (if changed { text@ } else { old(watcher).last_text_spec() })
            &&& final(watcher).last_image_spec() == old(watcher).last_image_spec()
            &&& (r is Some <==> captures_text(old(watcher).last_text_spec(), marker.spec(), text@, now_ms))
        }),
        r matches Some(it) ==> it@.content == encode_utf8(text@) && it@.content_type == ContentType::Text
            && !it@.is_pinned && it@.pin_order is None,
{
    if !watcher.observe_text(&text) {
        return None;
    }
    if marker.suppresses(&text, now_ms) {
        return None;
    }
    let content = slice_to_vec(text.as_str().as_bytes());
    Some(new_candidate(content, ContentType::Text))
}

/// The entry to store for a picture signal: `None` when its canonical
/// encoding equals the last one seen; otherwise the thumbnail, or the
/// full-quality form when `store_original` is set.
pub fn on_image_change(watcher: &mut Watcher, image: &PixelBuffer, store_original: bool) -> (r: Option<ClipItem>)
    ensures
        ({
            let png = pixels_png_of(image.width, image.height, image.bytes@);
            &&& final(watcher).last_image_spec() == Some(png)
            &&& final(watcher).last_text_spec() == old(watcher).last_text_spec()
            &&& (r is Some <==> old(watcher).last_image_spec() != Some(png))
            &&& (r matches Some(it) ==> it@.content == (if store_original {
                full_image_of(png)
            } else {
                thumbnail_of(png)
            }) && it@.content_type == ContentType::Image && !it@.is_pinned && it@.pin_order is None)
        }),
{
    let png = image_to_bytes(image);
    if !watcher.observe_image(&png) {
        return None;
    }
    let content = if store_original {
        process_full_image(&png)
    } else {
        create_thumbnail(&png)
    };
    Some(new_candidate(content, ContentType::Image))
}

/// What to write to the system clipboard for a stored entry.
#[derive(Debug)]
pub enum ClipboardPayload {
    Text(String),
    Image { width: u32, height: u32, rgba: Vec<u8> },
}

/// Why an entry could not be copied back to the clipboard.
#[derive(Debug, Clone, Copy, PartialEq, Eq)]
pub enum CopyError {
    /// No entry has this id, or its payload does not open.
    NotFound,
    /// The stored picture does not decode.
    ImageDecode,
}

/// The text a stored payload is written back as.
pub open spec fn payload_text(content: Seq<u8>) -> Seq<char> {
    lossy_utf8_of(content)
}

/// Re-copying entry `id`: it is promoted to `now_secs` in recency order, and
/// the payload to write is returned. Text is marked as the application's own
/// copy at `now_ms`; files and rich text are written as plain text without a
/// mark; pictures are decoded to RGBA8.
pub fn prepare_copy(
    store: &mut ClipStorage,
    marker: &mut SelfCopyMarker,
    id: &str,
    now_secs: i64,
    now_ms: u64,
) -> (r: Result<ClipboardPayload, CopyError>)
    requires
        old(store).wf(),
    ensures
        final(store).wf(),
        final(store).key() == old(store).key(),
        final(store).capacity_spec() == old(store).capacity_spec(),
        ({
            let rows = old(store)@;
            let found = id_taken(rows, id@) && opened(old(store).key(), rows[index_of(rows, id@)].sealed) is Some;
            let content = opened(old(store).key(), rows[index_of(rows, id@)].sealed)->0;
            let t = rows[index_of(rows, id@)].content_type;
            &&& (r == Err::<ClipboardPayload, CopyError>(CopyError::NotFound) <==> !found)
            &&& !found ==> final(store)@ == rows && final(marker).spec() == old(marker).spec()
            &&& found ==> final(store)@ == retimed(rows, id@, now_secs)
            &&& (r matches Ok(ClipboardPayload::Text(s)) ==> s@ == payload_text(content) && t != ContentType::Image)
            &&& (found && t == ContentType::Text ==> r is Ok && final(marker).spec() == Some((payload_text(content), crate::capture::mark_deadline(now_ms))))
            &&& (found && t != ContentType::Text ==> final(marker).spec() == old(marker).spec())
            &&& (found && t != ContentType::Image ==> r is Ok)
            &&& (r matches Ok(ClipboardPayload::Image { width, height, rgba }) ==> t == ContentType::Image
                && crate::transcode::decoded_of(content) == Some((width, height, rgba@)))
            &&& (r == Err::<ClipboardPayload, CopyError>(CopyError::ImageDecode) ==> found && t == ContentType::Image
                && crate::transcode::decoded_of(content) is None)
        }),
{
    let item = match store.get_by_id(id) {
        Some(it) => it,
        None => return Err(CopyError::NotFound),
    };
    store.update_timestamp(id, now_secs);
    match item.content_type {
        ContentType::Text => {
            let text = string_of_chars(&decode_utf8_lossy(item.content.as_slice()));
            marker.set(text.clone(), now_ms);
            Ok(ClipboardPayload::Text(text))
        },
        ContentType::Image => match crate::transcode::decode_for_clipboard(&item.content) {
            Some((width, height, rgba)) => Ok(ClipboardPayload::Image { width, height, rgba }),
            None => Err(CopyError::ImageDecode),
        },
        _ => {
            let text = string_of_chars(&decode_utf8_lossy(item.content.as_slice()));
            Ok(ClipboardPayload::Text(text))
        },
    }
}

} // verus!
