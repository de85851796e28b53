use crate::bytes::slice_to_vec;
use crate::transcode::{decode_rgba, decoded_of, lanczos_of, resize_rgba, usable};
use lru::LruCache;
use std::collections::hash_map::RandomState;
use std::num::NonZeroUsize;
use vstd::prelude::*;

verus! {

/// Side that the shorter side of a menu icon is scaled to.
pub const TRAY_ICON_SIZE: u32 = 32;

/// How many icons are kept.
pub const ICON_CACHE_SIZE: usize = 50;

#[verifier::external_type_specification]
#[verifier::external_body]
#[verifier::reject_recursive_types(K)]
#[verifier::reject_recursive_types(V)]
#[verifier::reject_recursive_types(S)]
pub struct ExLruCache<K, V, S>(LruCache<K, V, S>);

/// What an icon cache holds: for each clip id, width, height and RGBA8 pixels.
pub uninterp spec fn icon_cache_contents(c: LruCache<String, (u32, u32, Vec<u8>), RandomState>) -> Map<Seq<char>, (u32, u32, Seq<u8>)>;

/// A cache holding nothing.
pub open spec fn no_icons() -> Map<Seq<char>, (u32, u32, Seq<u8>)> {
    Map::empty()
}

/// Relies on lru's `LruCache::with_hasher`: an empty cache of the given capacity.
#[verifier::external_body]
fn new_icon_lru(cap: usize) -> (r: LruCache<String, (u32, u32, Vec<u8>), RandomState>)
    requires
        cap > 0,
    ensures
        icon_cache_contents(r) == no_icons(),
{
    LruCache::with_hasher(NonZeroUsize::new(cap).unwrap(), RandomState::new())
}

/// Relies on lru's `LruCache::get`: the value stored under the key, if any;
/// only the recency order changes.
#[verifier::external_body]
fn icon_lru_get(c: &mut LruCache<String, (u32, u32, Vec<u8>), RandomState>, id: &str) -> (r: Option<(u32, u32, Vec<u8>)>)
    ensures
        icon_cache_contents(*final(c)) == icon_cache_contents(*old(c)),
        match r {
            Some(v) => icon_cache_contents(*old(c)).contains_key(id@) && icon_cache_contents(*old(c))[id@] == (
            v.0,
            v.1,
            v.2@,
            ),
            None => !icon_cache_contents(*old(c)).contains_key(id@),
        },
{
    c.get(id).map(|v| (v.0, v.1, v.2.clone()))
}

/// Relies on lru's `LruCache::put`: the key now maps to the value; when the
/// cache is full the least recently used other entry may leave, and every
/// other entry that stays keeps its value.
#[verifier::external_body]
fn icon_lru_put(c: &mut LruCache<String, (u32, u32, Vec<u8>), RandomState>, id: String, v: (u32, u32, Vec<u8>))
    ensures
        icon_cache_contents(*final(c)).contains_key(id@),
        icon_cache_contents(*final(c))[id@] == (v.0, v.1, v.2@),
        forall|k: Seq<char>|
            #[trigger] icon_cache_contents(*final(c)).contains_key(k) && k != id@ ==> icon_cache_contents(
                *old(c),
            ).contains_key(k) && icon_cache_contents(*final(c))[k] == icon_cache_contents(*old(c))[k],
{
    c.put(id, v);
}

/// Relies on lru's `LruCache::clear`: no entry is left.
#[verifier::external_body]
fn icon_lru_clear(c: &mut LruCache<String, (u32, u32, Vec<u8>), RandomState>)
    ensures
        icon_cache_contents(*final(c)) == no_icons(),
{
    c.clear();
}

/// The icon size for a `width` x `height` picture: scaled so that the shorter
/// side is `TRAY_ICON_SIZE`, rounding down.
pub open spec fn icon_size(width: int, height: int) -> (int, int) {
    let m = if width < height { width } else { height };
    (width * TRAY_ICON_SIZE / m, height * TRAY_ICON_SIZE / m)
}

/// The icon made from an encoded picture, when it decodes and the scaled size
/// is representable.
pub open spec fn icon_of(content: Seq<u8>) -> Option<(u32, u32, Seq<u8>)> {
    match decoded_of(content) {
        Some(d) => if usable(d) {
            let (nw, nh) = icon_size(d.0 as int, d.1 as int);
            if nw <= u32::MAX && nh <= u32::MAX && nw * nh * 4 <= usize::MAX {
                Some((nw as u32, nh as u32, lanczos_of(d.0, d.1, d.2, nw as u32, nh as u32)))
            } else {
                None
            }
        } else {
            None
        },
        None => None,
    }
}

/// A menu icon: RGBA8 pixels.
#[derive(Debug, Clone)]
pub struct TrayIcon {
    pub width: u32,
    pub height: u32,
    pub rgba: Vec<u8>,
}

/// Recently built menu icons, by clip id.
pub struct TrayIconCache {
    cache: LruCache<String, (u32, u32, Vec<u8>), RandomState>,
}

impl TrayIconCache {
    /// The cached icons.
    pub closed spec fn contents(&self) -> Map<Seq<char>, (u32, u32, Seq<u8>)> {
        icon_cache_contents(self.cache)
    }

    /// An empty cache of `ICON_CACHE_SIZE` icons.
    pub fn new() -> (r: TrayIconCache)
        ensures
            r.contents() == no_icons(),
    {
        TrayIconCache { cache: new_icon_lru(ICON_CACHE_SIZE) }
    }

    /// The icon of clip `id`: the cached one when present, otherwise built
    /// from `content` and cached. `None` when the picture does not decode.
    pub fn get_or_create(&mut self, id: &str, content: &[u8]) -> (r: Option<TrayIcon>)
        ensures
            old(self).contents().contains_key(id@) ==> final(self).contents() == old(self).contents() && (r
                matches Some(icon) && (icon.width, icon.height, icon.rgba@) == old(self).contents()[id@]),
            !old(self).contents().contains_key(id@) ==> match icon_of(content@) {
                Some(made) => (r matches Some(icon) && (icon.width, icon.height, icon.rgba@) == made)
                    && final(self).contents().contains_key(id@) && final(self).contents()[id@] == made
                    && forall|k: Seq<char>|
                    #[trigger] final(self).contents().contains_key(k) && k != id@ ==> old(
                        self,
                    ).contents().contains_key(k) && final(self).contents()[k] == old(self).contents()[k],
                None => r is None && final(self).contents() == old(self).contents(),
            },
    {
        match icon_lru_get(&mut self.cache, id) {
            Some((width, height, rgba)) => {
                return Some(TrayIcon { width, height, rgba });
            },
            None => {},
        }
        let bytes = slice_to_vec(content);
        match decode_rgba(&bytes) {
            Some((w, h, px)) => {
                if w == 0 || h == 0 {
                    return None;
                }
                let m: u64 = if w < h { w as u64 } else { h as u64 };
                let nw: u64 = (w as u64) * (TRAY_ICON_SIZE as u64) / m;
                let nh: u64 = (h as u64) * (TRAY_ICON_SIZE as u64) / m;
                if nw > u32::MAX as u64 || nh > u32::MAX as u64 {
                    return None;
                }
                assert((nw as u128) * (nh as u128) <= 0xffff_ffffu128 * 0xffff_ffffu128) by (nonlinear_arith)
                    requires nw <= 0xffff_ffff, nh <= 0xffff_ffff;
                let area: u128 = (nw as u128) * (nh as u128) * 4;
                if area > usize::MAX as u128 {
                    return None;
                }
                let rgba = resize_rgba(w, h, &px, nw as u32, nh as u32);
                let copy = slice_to_vec(rgba.as_slice());
                icon_lru_put(&mut self.cache, String::from_str(id), (nw as u32, nh as u32, copy));
                Some(TrayIcon { width: nw as u32, height: nh as u32, rgba })
            },
            None => None,
        }
    }

    /// Drops every cached icon.
    pub fn clear(&mut self)
        ensures
            final(self).contents() == no_icons(),
    {
        icon_lru_clear(&mut self.cache);
    }
}

} // verus!
