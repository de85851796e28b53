use crate::bytes::copy_range;
use crate::text::str_equal;
use vstd::prelude::*;

verus! {

/// The kind of payload a clipboard entry holds. Fixed at creation.
#[derive(Debug, Clone, Copy, PartialEq, Eq, Structural)]
pub enum ContentType {
    Text,
    Image,
    File,
    Html,
    Rtf,
}

/// The stored name of each content type.
pub open spec fn stored_name(t: ContentType) -> Seq<char> {
    match t {
        ContentType::Text => "text"@,
        ContentType::Image => "image"@,
        ContentType::File => "file"@,
        ContentType::Html => "html"@,
        ContentType::Rtf => "rtf"@,
    }
}

/// The content type a stored name denotes; unknown names read as text.
pub open spec fn type_of_stored_name(s: Seq<char>) -> ContentType {
    if s == "image"@ {
        ContentType::Image
    } else if s == "file"@ {
        ContentType::File
    } else if s == "html"@ {
        ContentType::Html
    } else if s == "rtf"@ {
        ContentType::Rtf
    } else {
        ContentType::Text
    }
}

impl ContentType {
    /// The name under which this type is stored.
    pub fn to_string(&self) -> (r: &'static str)
        ensures
            r@ == stored_name(*self),
    {
        match self {
            ContentType::Text => "text",
            ContentType::Image => "image",
            ContentType::File => "file",
            ContentType::Html => "html",
            ContentType::Rtf => "rtf",
        }
    }

    /// The type a stored name denotes; anything unknown is text.
    pub fn from_string(s: &str) -> (r: ContentType)
        ensures
            r == type_of_stored_name(s@),
    {
        if str_equal(s, "image") {
            ContentType::Image
        } else if str_equal(s, "file") {
            ContentType::File
        } else if str_equal(s, "html") {
            ContentType::Html
        } else if str_equal(s, "rtf") {
            ContentType::Rtf
        } else {
            ContentType::Text
        }
    }
}

/// A clipboard entry in its readable form.
#[derive(Debug, Clone)]
pub struct ClipItem {
    pub id: String,
    pub content: Vec<u8>,
    pub content_type: ContentType,
    pub timestamp: i64,
    pub is_pinned: bool,
    pub pin_order: Option<i32>,
}

/// The mathematical value of a `ClipItem`.
pub struct ItemView {
    pub id: Seq<char>,
    pub content: Seq<u8>,
    pub content_type: ContentType,
    pub timestamp: i64,
    pub is_pinned: bool,
    pub pin_order: Option<i32>,
}

impl View for ClipItem {
    type V = ItemView;

    open spec fn view(&self) -> ItemView {
        ItemView {
            id: self.id@,
            content: self.content@,
            content_type: self.content_type,
            timestamp: self.timestamp,
            is_pinned: self.is_pinned,
            pin_order: self.pin_order,
        }
    }
}

/// A clipboard entry as it is persisted: the payload sealed, with the digest
/// used to find duplicates.
#[derive(Debug, Clone)]
pub struct StoredClip {
    pub id: String,
    pub content: Vec<u8>,
    pub content_hash: String,
    pub content_type: ContentType,
    pub timestamp: i64,
    pub is_pinned: bool,
    pub pin_order: Option<i32>,
}

/// The mathematical value of a `StoredClip`.
pub struct RowView {
    pub id: Seq<char>,
    pub sealed: Seq<u8>,
    pub content_hash: Seq<char>,
    pub content_type: ContentType,
    pub timestamp: i64,
    pub is_pinned: bool,
    pub pin_order: Option<i32>,
}

impl View for StoredClip {
    type V = RowView;

    open spec fn view(&self) -> RowView {
        RowView {
            id: self.id@,
            sealed: self.content@,
            content_hash: self.content_hash@,
            content_type: self.content_type,
            timestamp: self.timestamp,
            is_pinned: self.is_pinned,
            pin_order: self.pin_order,
        }
    }
}

impl ClipItem {
    /// A field-by-field copy.
    pub fn duplicate(&self) -> (r: ClipItem)
        ensures
            r@ == self@,
    {
        let content = copy_range(&self.content, 0, self.content.len());
        assert(self.content@.subrange(0, self.content@.len() as int) =~= self.content@);
        ClipItem {
            id: self.id.clone(),
            content,
            content_type: self.content_type,
            timestamp: self.timestamp,
            is_pinned: self.is_pinned,
            pin_order: self.pin_order,
        }
    }
}

impl StoredClip {
    /// A field-by-field copy.
    pub fn duplicate(&self) -> (r: StoredClip)
        ensures
            r@ == self@,
    {
        let content = copy_range(&self.content, 0, self.content.len());
        assert(self.content@.subrange(0, self.content@.len() as int) =~= self.content@);
        StoredClip {
            id: self.id.clone(),
            content,
            content_hash: self.content_hash.clone(),
            content_type: self.content_type,
            timestamp: self.timestamp,
            is_pinned: self.is_pinned,
            pin_order: self.pin_order,
        }
    }
}

/// The values of a sequence of entries.
pub open spec fn item_views(items: Seq<ClipItem>) -> Seq<ItemView> {
    items.map_values(|c: ClipItem| c@)
}

/// The values of a sequence of ids.
pub open spec fn id_views(ids: Seq<String>) -> Seq<Seq<char>> {
    ids.map_values(|s: String| s@)
}

/// The readable entry a row gives once its payload is opened to `content`.
pub open spec fn item_of(r: RowView, content: Seq<u8>) -> ItemView {
    ItemView {
        id: r.id,
        content: content,
        content_type: r.content_type,
        timestamp: r.timestamp,
        is_pinned: r.is_pinned,
        pin_order: r.pin_order,
    }
}

} // verus!
