use crate::bytes::slice_to_vec;
use crate::entry::{item_views, ClipItem, ContentType, ItemView};
use crate::text::{chars_of, decode_utf8_lossy, decode_utf8_strict, lossy_utf8_of, string_of_chars};
use vstd::prelude::*;
use vstd::string::{StrSliceExecFns, StringExecFns};
use vstd::utf8::{decode_utf8, valid_utf8};

verus! {

/// The last component of a path, when it names a file or directory.
pub uninterp spec fn file_name_of(path: Seq<char>) -> Option<Seq<char>>;

/// Relies on `Path::file_name`: the final component of the path, unless the
/// path ends in `..` or is a root or empty.
#[verifier::external_body]
fn file_name(path: &str) -> (r: Option<Vec<char>>)
    ensures
        match r {
            Some(n) => file_name_of(path@) == Some(n@),
            None => file_name_of(path@) is None,
        },
{
    std::path::Path::new(path).file_name().map(|n| n.to_string_lossy().chars().collect())
}

/// Menu labels in one language.
pub struct TrayI18n {
    pub pinned_header: &'static str,
    pub recent_header: &'static str,
    pub image: &'static str,
    pub file: &'static str,
    pub file_prefix: &'static str,
    pub clear: &'static str,
    pub settings: &'static str,
    pub quit: &'static str,
}

/// A locale whose name starts with `zh`.
pub open spec fn is_chinese_locale(locale: Seq<char>) -> bool {
    locale.len() >= 2 && locale[0] == 'z' && locale[1] == 'h'
}

/// The Chinese labels.
pub open spec fn chinese_labels(t: TrayI18n) -> bool {
    &&& t.pinned_header@ == "置顶项"@
    &&& t.recent_header@ == "最近复制"@
    &&& t.image@ == "图片"@
    &&& t.file@ == "文件"@
    &&& t.file_prefix@ == "文件: "@
    &&& t.clear@ == "清除"@
    &&& t.settings@ == "设置"@
    &&& t.quit@ == "退出"@
}

/// The English labels.
pub open spec fn english_labels(t: TrayI18n) -> bool {
    &&& t.pinned_header@ == "Pinned"@
    &&& t.recent_header@ == "Recent"@
    &&& t.image@ == "Image"@
    &&& t.file@ == "File"@
    &&& t.file_prefix@ == "File: "@
    &&& t.clear@ == "Clear"@
    &&& t.settings@ == "Settings"@
    &&& t.quit@ == "Quit"@
}

impl TrayI18n {
    /// Chinese labels for locales starting with `zh`, English otherwise.
    pub fn new(locale: &str) -> (r: TrayI18n)
        ensures
            is_chinese_locale(locale@) ==> chinese_labels(r),
            !is_chinese_locale(locale@) ==> english_labels(r),
    {
        let zh = locale.unicode_len() >= 2 && locale.get_char(0) == 'z' && locale.get_char(1) == 'h';
        if zh {
            TrayI18n {
                pinned_header: "置顶项",
                recent_header: "最近复制",
                image: "图片",
                file: "文件",
                file_prefix: "文件: ",
                clear: "清除",
                settings: "设置",
                quit: "退出",
            }
        } else {
            TrayI18n {
                pinned_header: "Pinned",
                recent_header: "Recent",
                image: "Image",
                file: "File",
                file_prefix: "File: ",
                clear: "Clear",
                settings: "Settings",
                quit: "Quit",
            }
        }
    }
}

/// Unicode's White_Space property.
pub open spec fn white_space(c: char) -> bool {
    let v = c as u32;
    (0x9 <= v <= 0xd) || v == 0x20 || v == 0x85 || v == 0xa0 || v == 0x1680 || (0x2000 <= v <= 0x200a)
        || v == 0x2028 || v == 0x2029 || v == 0x202f || v == 0x205f || v == 0x3000
}

/// Whether `c` is white space in Unicode's sense.
pub fn is_white_space(c: char) -> (r: bool)
    ensures
        r == white_space(c),
{
    let v = c as u32;
    (0x9 <= v && v <= 0xd) || v == 0x20 || v == 0x85 || v == 0xa0 || v == 0x1680 || (0x2000 <= v && v
        <= 0x200a) || v == 0x2028 || v == 0x2029 || v == 0x202f || v == 0x205f || v == 0x3000
}

/// The words of `s` (maximal runs without white space) joined by single
/// spaces. `started` says a word was already emitted, `pending` that white
/// space followed it.
pub open spec fn collapse_from(s: Seq<char>, started: bool, pending: bool) -> Seq<char>
    decreases s.len(),
{
    if s.len() == 0 {
        Seq::empty()
    } else if white_space(s[0]) {
        collapse_from(s.drop_first(), started, started)
    } else {
        (if pending { seq![' '] } else { Seq::empty() }) + seq![s[0]] + collapse_from(
            s.drop_first(),
            true,
            false,
        )
    }
}

/// White space collapsed: words joined by single spaces, none at either end.
pub open spec fn collapse_whitespace(s: Seq<char>) -> Seq<char> {
    collapse_from(s, false, false)
}

/// How many leading characters a shortened preview keeps.
pub open spec fn head_len(max_len: int) -> int {
    max_len * 2 / 3
}

/// How many trailing characters a shortened preview keeps.
pub open spec fn tail_len(max_len: int) -> int {
    let t = max_len - head_len(max_len) - 3;
    if t < 0 {
        0
    } else {
        t
    }
}

/// A text longer than `max_len` becomes its start, `...`, and its end.
pub open spec fn shorten(s: Seq<char>, max_len: int) -> Seq<char> {
    if s.len() > max_len {
        s.take(head_len(max_len)) + seq!['.', '.', '.'] + s.skip(s.len() - tail_len(max_len))
    } else {
        s
    }
}

/// The menu preview of an entry.
pub open spec fn preview_of(content: Seq<u8>, t: ContentType, max_len: usize, i18n: TrayI18n) -> Seq<char> {
    match t {
        ContentType::Image => i18n.image@,
        ContentType::File => if valid_utf8(content) {
            match file_name_of(decode_utf8(content)) {
                Some(n) => i18n.file_prefix@ + n,
                None => i18n.file@,
            }
        } else {
            i18n.file@
        },
        _ => shorten(collapse_whitespace(lossy_utf8_of(content)), max_len as int),
    }
}

/// The one-line preview of a text: white space collapsed, and when longer
/// than `max_len` characters, its start and end around `...`.
pub fn preview_text(text: &Vec<char>, max_len: usize) -> (r: Vec<char>)
    ensures
        r@ == shorten(collapse_whitespace(text@), max_len as int),
        forall|i: int| 0 <= i < r@.len() ==> r@[i] != '\n' && r@[i] != '\r',
{
    let mut out: Vec<char> = Vec::new();
    let mut started = false;
    let mut pending = false;
    let mut i: usize = 0;
    assert(text@.skip(0) =~= text@);
    while i < text.len()
        invariant
            i <= text@.len(),
            collapse_whitespace(text@) == out@ + collapse_from(text@.skip(i as int), started, pending),
            forall|k: int| 0 <= k < out@.len() ==> out@[k] == ' ' || !white_space(out@[k]),
        decreases text@.len() - i,
    {
        let ghost before = out@;
        let c = text[i];
        assert(text@.skip(i as int).drop_first() =~= text@.skip(i + 1));
        assert(text@.skip(i as int)[0] == c);
        if is_white_space(c) {
            pending = started;
        } else {
            if pending {
                out.push(' ');
            }
            out.push(c);
            assert(out@ + collapse_from(text@.skip(i + 1), true, false) =~= before + ((if pending {
                seq![' ']
            } else {
                Seq::empty()
            }) + seq![c] + collapse_from(text@.skip(i + 1), true, false)));
            started = true;
            pending = false;
        }
        i = i + 1;
    }
    assert(text@.skip(i as int) =~= Seq::<char>::empty());
    assert(out@ + collapse_from(text@.skip(i as int), started, pending) =~= out@);
    let ghost flat = out@;
    assert forall|k: int| 0 <= k < flat.len() implies flat[k] != '\n' && flat[k] != '\r' by {
        assert(flat[k] == ' ' || !white_space(flat[k]));
    }
    let n = out.len();
    if n <= max_len {
        return out;
    }
    let head = max_len / 3 * 2 + max_len % 3 * 2 / 3;
    assert(head == max_len * 2 / 3) by (nonlinear_arith)
        requires head == max_len / 3 * 2 + max_len % 3 * 2 / 3;
    let tail = if max_len >= head + 3 { max_len - head - 3 } else { 0 };
    let mut r: Vec<char> = Vec::new();
    let mut k: usize = 0;
    while k < head
        invariant
            head <= max_len < n == flat.len(),
            k <= head,
            r@ == flat.take(k as int),
            out@ == flat,
        decreases head - k,
    {
        r.push(out[k]);
        k = k + 1;
        assert(r@ =~= flat.take(k as int));
    }
    r.push('.');
    r.push('.');
    r.push('.');
    let ghost mid = r@;
    assert(mid =~= flat.take(head as int) + seq!['.', '.', '.']);
    let mut j: usize = n - tail;
    while j < n
        invariant
            tail <= max_len < n == flat.len(),
            n - tail <= j <= n,
            r@ == mid + flat.subrange(n - tail, j as int),
            out@ == flat,
        decreases n - j,
    {
        r.push(out[j]);
        j = j + 1;
        assert(r@ =~= mid + flat.subrange(n - tail, j as int));
    }
    assert(flat.subrange(n - tail, n as int) =~= flat.skip(n - tail));
    assert forall|q: int| 0 <= q < r@.len() implies r@[q] != '\n' && r@[q] != '\r' by {
        if q >= head + 3 {
            assert(r@[q] == flat[n - tail + (q - head - 3)]);
        } else if q < head {
            assert(r@[q] == flat[q]);
        }
    }
    r
}

/// The menu preview of an entry: text-like content shortened to `max_len`
/// characters, a picture by its label, a file by its name.
pub fn truncate_content(content: &[u8], content_type: &ContentType, max_len: usize, i18n: &TrayI18n) -> (r: String)
    ensures
        r@ == preview_of(content@, *content_type, max_len, *i18n),
{
    match content_type {
        ContentType::Image => String::from_str(i18n.image),
        ContentType::File => {
            let bytes = slice_to_vec(content);
            match decode_utf8_strict(&bytes) {
                Some(path) => match file_name(path.as_str()) {
                    Some(name) => {
                        let mut label = chars_of(i18n.file_prefix);
                        let mut tail = name;
                        label.append(&mut tail);
                        string_of_chars(&label)
                    },
                    None => String::from_str(i18n.file),
                },
                None => String::from_str(i18n.file),
            }
        },
        _ => {
            let text = decode_utf8_lossy(content);
            let shown = preview_text(&text, max_len);
            string_of_chars(&shown)
        },
    }
}

/// How many recent entries the menu asks for: enough for both sections, and
/// at least 30.
pub open spec fn menu_query_limit(max_recent: usize, max_pinned: usize) -> int {
    let total = if max_recent + max_pinned <= usize::MAX { max_recent + max_pinned } else { usize::MAX as int };
    if total < 30 {
        30
    } else {
        total
    }
}

/// How many recent entries to fetch for a menu with these section sizes.
pub fn tray_query_limit(max_recent: usize, max_pinned: usize) -> (r: usize)
    ensures
        r == menu_query_limit(max_recent, max_pinned),
{
    let total = if max_recent <= usize::MAX - max_pinned { max_recent + max_pinned } else { usize::MAX };
    if total < 30 {
        30
    } else {
        total
    }
}

/// The first `n` unpinned entries.
pub open spec fn unpinned_prefix(items: Seq<ItemView>, n: nat) -> Seq<ItemView>
    decreases items.len(),
{
    if items.len() == 0 || n == 0 {
        Seq::empty()
    } else if items[0].is_pinned {
        unpinned_prefix(items.drop_first(), n)
    } else {
        seq![items[0]] + unpinned_prefix(items.drop_first(), (n - 1) as nat)
    }
}

/// The two sections of the tray menu.
pub struct TraySections {
    pub pinned: Vec<ClipItem>,
    pub recent: Vec<ClipItem>,
}

/// The menu's sections: the first `max_pinned` pinned entries, and the first
/// `max_recent` recent entries that are not pinned.
pub fn tray_sections(pinned: &Vec<ClipItem>, recent: &Vec<ClipItem>, max_pinned: usize, max_recent: usize) -> (r: TraySections)
    ensures
        item_views(r.pinned@) == item_views(pinned@).take(if max_pinned < pinned@.len() { max_pinned as int } else { pinned@.len() as int }),
        item_views(r.recent@) == unpinned_prefix(item_views(recent@), max_recent as nat),
{
    let n = if max_pinned < pinned.len() { max_pinned } else { pinned.len() };
    let mut top: Vec<ClipItem> = Vec::new();
    let mut i: usize = 0;
    while i < n
        invariant
            n <= pinned@.len(),
            i <= n,
            item_views(top@) == item_views(pinned@).take(i as int),
        decreases n - i,
    {
        let ghost before = item_views(top@);
        let it = pinned[i].duplicate();
        top.push(it);
        assert(item_views(top@) =~= before + seq![it@]);
        assert(item_views(pinned@).take(i + 1) =~= item_views(pinned@).take(i as int) + seq![pinned@[i as int]@]);
        i = i + 1;
    }
    let ghost all = item_views(recent@);
    let mut rest: Vec<ClipItem> = Vec::new();
    let mut budget: usize = max_recent;
    let mut j: usize = 0;
    assert(all.skip(0) =~= all);
    assert(item_views(rest@) =~= Seq::<ItemView>::empty());
    while j < recent.len()
        invariant
            all == item_views(recent@),
            j <= all.len(),
            n == (if max_pinned < pinned@.len() { max_pinned as int } else { pinned@.len() as int }),
            item_views(top@) == item_views(pinned@).take(n as int),
            unpinned_prefix(all, max_recent as nat) == item_views(rest@) + unpinned_prefix(all.skip(j as int), budget as nat),
        decreases all.len() - j,
    {
        let ghost before = item_views(rest@);
        assert(all.skip(j as int).drop_first() =~= all.skip(j + 1));
        assert(all.skip(j as int)[0] == all[j as int]);
        if budget == 0 {
            assert(item_views(rest@) + unpinned_prefix(all.skip(j as int), 0) =~= item_views(rest@));
            return TraySections { pinned: top, recent: rest };
        }
        if !recent[j].is_pinned {
            let it = recent[j].duplicate();
            rest.push(it);
            budget = budget - 1;
            assert(item_views(rest@) =~= before + seq![all[j as int]]);
            assert(item_views(rest@) + unpinned_prefix(all.skip(j + 1), budget as nat) =~= before + (seq![all[j as int]]
                + unpinned_prefix(all.skip(j + 1), budget as nat)));
        }
        j = j + 1;
    }
    assert(all.skip(j as int) =~= Seq::<ItemView>::empty());
    assert(item_views(rest@) + unpinned_prefix(all.skip(j as int), budget as nat) =~= item_views(rest@));
    TraySections { pinned: top, recent: rest }
}

} // verus!
