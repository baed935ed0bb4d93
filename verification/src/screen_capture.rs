//! Screen and window sources for screen sharing: the per-type cache with its
//! pagination, and thumbnails as PNG data URLs.

use vstd::prelude::*;
use vstd::string::StringExecFns;
use crate::commands::base64::{encode, spec_base64_encode};
use crate::image_ops::{encode_png_rgba, resize_fits, resize_rgba_triangle, spec_png_rgba, spec_resize_triangle};
use crate::text::{concat_str, str_is};

verus! {

/// A capturable screen or window.
#[derive(Debug, Clone)]
pub struct ScreenSource {
    /// Unique identifier (e.g. "screen:0" or "window:12345").
    pub id: String,
    /// Display name of the source.
    pub name: String,
    /// PNG thumbnail as a data URL, empty when none could be made.
    pub thumbnail: String,
    /// Icon (always empty here).
    pub icon: String,
    /// "screen" or "window".
    pub source_type: String,
}

impl ScreenSource {
    /// A copy of this source, field by field.
    pub fn duplicate(&self) -> (r: Self)
        ensures
            r == *self,
    {
        ScreenSource {
            id: self.id.clone(),
            name: self.name.clone(),
            thumbnail: self.thumbnail.clone(),
            icon: self.icon.clone(),
            source_type: self.source_type.clone(),
        }
    }
}

/// Answer to a first request for sources.
#[derive(Debug, Clone)]
pub struct ScreenSourcesResponse {
    pub sources: Vec<ScreenSource>,
    pub total: usize,
    pub has_more: bool,
}

/// Answer to a request for the next page of sources.
#[derive(Debug, Clone)]
pub struct LoadMoreResponse {
    pub sources: Vec<ScreenSource>,
    pub has_more: bool,
}

/// Thumbnail dimensions.
#[derive(Debug, Clone, Copy)]
pub struct ThumbnailSize {
    pub width: u32,
    pub height: u32,
}

impl ThumbnailSize {
    /// Thumbnail size for whole screens: 272 x 136.
    pub fn for_screen() -> (r: Self)
        ensures
            r.width == 272,
            r.height == 136,
    {
        ThumbnailSize { width: 272, height: 136 }
    }

    /// Thumbnail size for single windows: 150 x 90.
    pub fn for_window() -> (r: Self)
        ensures
            r.width == 150,
            r.height == 90,
    {
        ThumbnailSize { width: 150, height: 90 }
    }
}

/// Number of sources in the first answer.
pub const INITIAL_BATCH_SIZE: usize = 12;

/// Number of sources in each further page.
pub const LOAD_MORE_BATCH_SIZE: usize = 8;

/// The two kinds of sources that can be captured and cached.
#[derive(Debug, Clone, Copy, PartialEq, Eq, Structural)]
pub enum SourceKind {
    Screen,
    Window,
}

/// The kind that a source-type text names, if any.
pub open spec fn spec_source_kind(t: Seq<char>) -> Option<SourceKind> {
    if t == "screen"@ {
        Some(SourceKind::Screen)
    } else if t == "window"@ {
        Some(SourceKind::Window)
    } else {
        None
    }
}

/// The source-type text of a kind.
pub open spec fn kind_text(k: SourceKind) -> Seq<char> {
    match k {
        SourceKind::Screen => "screen"@,
        SourceKind::Window => "window"@,
    }
}

/// Reads the kind named by `source_type`.
pub fn source_kind(source_type: &str) -> (r: Option<SourceKind>)
    ensures
        r == spec_source_kind(source_type@),
{
    if str_is(source_type, "screen") {
        Some(SourceKind::Screen)
    } else if str_is(source_type, "window") {
        Some(SourceKind::Window)
    } else {
        None
    }
}

/// Cache of captured sources, one list per kind, so that paging does not capture again.
/// Only screens and windows are ever stored, so each kind has a field of its own.
pub struct SourcesCache {
    screen: Option<Vec<ScreenSource>>,
    window: Option<Vec<ScreenSource>>,
}

/// Abstract state of the cache: the list held for each kind, if any.
pub struct CacheState {
    pub screen: Option<Seq<ScreenSource>>,
    pub window: Option<Seq<ScreenSource>>,
}

pub open spec fn opt_view(v: Option<Vec<ScreenSource>>) -> Option<Seq<ScreenSource>> {
    match v {
        Some(v) => Some(v@),
        None => None,
    }
}

impl View for SourcesCache {
    type V = CacheState;

    closed spec fn view(&self) -> CacheState {
        CacheState { screen: opt_view(self.screen), window: opt_view(self.window) }
    }
}

impl CacheState {
    /// The list cached under the kind `k`.
    pub open spec fn entry(self, k: SourceKind) -> Option<Seq<ScreenSource>> {
        match k {
            SourceKind::Screen => self.screen,
            SourceKind::Window => self.window,
        }
    }

    /// The list cached under the source-type text `t` (none for a text that names no kind).
    pub open spec fn cached(self, t: Seq<char>) -> Option<Seq<ScreenSource>> {
        match spec_source_kind(t) {
            Some(k) => self.entry(k),
            None => None,
        }
    }

    /// The state after caching `v` under `k`.
    pub open spec fn store(self, k: SourceKind, v: Seq<ScreenSource>) -> CacheState {
        match k {
            SourceKind::Screen => CacheState { screen: Some(v), window: self.window },
            SourceKind::Window => CacheState { screen: self.screen, window: Some(v) },
        }
    }

    /// The state after clearing the entry for `t`, or every entry when `t` is `None`.
    pub open spec fn clear(self, t: Option<Seq<char>>) -> CacheState {
        match t {
            None => CacheState { screen: None, window: None },
            Some(t) => match spec_source_kind(t) {
                Some(SourceKind::Screen) => CacheState { screen: None, window: self.window },
                Some(SourceKind::Window) => CacheState { screen: self.screen, window: None },
                None => self,
            },
        }
    }
}

impl SourcesCache {
    /// An empty cache.
    pub fn new() -> (r: Self)
        ensures
            r@.screen is None,
            r@.window is None,
    {
        SourcesCache { screen: None, window: None }
    }
}

/// The sources of the first answer for the list `c`: at most the first twelve.
pub open spec fn initial_items(c: Seq<ScreenSource>) -> Seq<ScreenSource> {
    if c.len() > INITIAL_BATCH_SIZE {
        c.take(INITIAL_BATCH_SIZE as int)
    } else {
        c
    }
}

/// Whether `r` is the first answer for the list `c`.
pub open spec fn is_initial_answer(r: ScreenSourcesResponse, c: Seq<ScreenSource>) -> bool {
    &&& r.sources@ == initial_items(c)
    &&& r.total == c.len()
    &&& r.has_more == (c.len() > INITIAL_BATCH_SIZE)
}

/// The sources of the page of `c` that starts at `offset`: at most eight.
pub open spec fn page_items(c: Seq<ScreenSource>, offset: int) -> Seq<ScreenSource> {
    if offset >= c.len() {
        Seq::empty()
    } else if c.len() - offset > LOAD_MORE_BATCH_SIZE {
        c.subrange(offset, offset + LOAD_MORE_BATCH_SIZE)
    } else {
        c.skip(offset)
    }
}

/// Whether sources remain after the page of `c` that starts at `offset`.
pub open spec fn page_has_more(c: Seq<ScreenSource>, offset: int) -> bool {
    offset + page_items(c, offset).len() < c.len()
}

/// What the first request for sources of a type does.
pub enum SourcesRequest {
    /// The answer is known: from the cache, or an error for an unknown type.
    Ready(Result<ScreenSourcesResponse, String>),
    /// Nothing is cached: the sources of this kind must be captured, then
    /// handed to `finish_screen_sources`.
    Capture(SourceKind),
}

/// Copies `v[lo..hi]`.
fn copy_range(v: &Vec<ScreenSource>, lo: usize, hi: usize) -> (r: Vec<ScreenSource>)
    requires
        lo <= hi <= v.len(),
    ensures
        r@ == v@.subrange(lo as int, hi as int),
{
    let mut r: Vec<ScreenSource> = Vec::new();
    let mut i = lo;
    while i < hi
        invariant
            lo <= i <= hi <= v.len(),
            r@ == v@.subrange(lo as int, i as int),
        decreases hi - i,
    {
        r.push(v[i].duplicate());
        assert(r@ =~= v@.subrange(lo as int, i + 1));
        i = i + 1;
    }
    r
}

/// The first answer for the list `c`.
fn initial_answer(c: &Vec<ScreenSource>) -> (r: ScreenSourcesResponse)
    ensures
        is_initial_answer(r, c@),
{
    let n = c.len();
    let end = if n > INITIAL_BATCH_SIZE { INITIAL_BATCH_SIZE } else { n };
    let sources = copy_range(c, 0, end);
    assert(c@.subrange(0, n as int) =~= c@);
    ScreenSourcesResponse { sources, total: n, has_more: n > INITIAL_BATCH_SIZE }
}

/// The error for a source type that names no kind.
pub open spec fn unknown_type_message(t: Seq<char>) -> Seq<char> {
    "Unknown source type: "@ + t
}

/// First request for the sources of `source_type` ("screen" or "window").
/// A cached list answers at once with its first twelve sources, its size and
/// whether more remain; an uncached kind asks for a capture; any other type is an error.
pub fn get_screen_sources(cache: &SourcesCache, source_type: &str) -> (r: SourcesRequest)
    ensures
        match cache@.cached(source_type@) {
            Some(c) => r matches SourcesRequest::Ready(Ok(resp)) && is_initial_answer(resp, c),
            None => match spec_source_kind(source_type@) {
                Some(k) => r == SourcesRequest::Capture(k),
                None => r matches SourcesRequest::Ready(Err(e)) && e@ == unknown_type_message(
                    source_type@,
                ),
            },
        },
{
    match source_kind(source_type) {
        Some(SourceKind::Screen) => match &cache.screen {
            Some(c) => SourcesRequest::Ready(Ok(initial_answer(c))),
            None => SourcesRequest::Capture(SourceKind::Screen),
        },
        Some(SourceKind::Window) => match &cache.window {
            Some(c) => SourcesRequest::Ready(Ok(initial_answer(c))),
            None => SourcesRequest::Capture(SourceKind::Window),
        },
        None => SourcesRequest::Ready(Err(concat_str("Unknown source type: ", source_type))),
    }
}

/// Second half of a first request whose kind was not cached: on a successful
/// capture the list is cached under its kind and its first page returned; a
/// failed capture is returned as it came and leaves the cache as it was.
pub fn finish_screen_sources(
    cache: &mut SourcesCache,
    kind: SourceKind,
    captured: Result<Vec<ScreenSource>, String>,
) -> (r: Result<ScreenSourcesResponse, String>)
    ensures
        match captured {
            Ok(v) => {
                &&& final(cache)@ == old(cache)@.store(kind, v@)
                &&& r matches Ok(resp) && is_initial_answer(resp, v@)
            },
            Err(e) => final(cache)@ == old(cache)@ && r == Err::<ScreenSourcesResponse, String>(e),
        },
{
    match captured {
        Ok(sources) => {
            let resp = initial_answer(&sources);
            match kind {
                SourceKind::Screen => {
                    cache.screen = Some(sources);
                },
                SourceKind::Window => {
                    cache.window = Some(sources);
                },
            }
            Ok(resp)
        },
        Err(e) => Err(e),
    }
}

/// Next page of the cached sources of `source_type`, starting at `offset`: at most
/// eight sources, and whether any remain after them. A type with nothing cached
/// gives an empty page. Never fails.
pub fn load_more_screen_sources(cache: &SourcesCache, source_type: &str, offset: usize) -> (r:
    Result<LoadMoreResponse, String>)
    ensures
        r matches Ok(resp) && match cache@.cached(source_type@) {
            Some(c) => resp.sources@ == page_items(c, offset as int) && resp.has_more
                == page_has_more(c, offset as int),
            None => resp.sources@.len() == 0 && !resp.has_more,
        },
{
    let cached: Option<&Vec<ScreenSource>> = match source_kind(source_type) {
        Some(SourceKind::Screen) => match &cache.screen {
            Some(c) => Some(c),
            None => None,
        },
        Some(SourceKind::Window) => match &cache.window {
            Some(c) => Some(c),
            None => None,
        },
        None => None,
    };
    match cached {
        Some(c) => {
            let n = c.len();
            let lo = if offset < n { offset } else { n };
            let hi = if n - lo > LOAD_MORE_BATCH_SIZE { lo + LOAD_MORE_BATCH_SIZE } else { n };
            let next_batch = copy_range(c, lo, hi);
            proof {
                if offset < n && n - offset <= LOAD_MORE_BATCH_SIZE {
                    assert(c@.skip(offset as int) =~= c@.subrange(offset as int, n as int));
                }
            }
            let has_more = offset + next_batch.len() < n;
            Ok(LoadMoreResponse { sources: next_batch, has_more })
        },
        None => Ok(LoadMoreResponse { sources: Vec::new(), has_more: false }),
    }
}

/// Forgets the cached sources of `source_type`, or of every type for `None`.
pub fn clear_screen_sources_cache(cache: &mut SourcesCache, source_type: Option<&str>)
    ensures
        final(cache)@ == old(cache)@.clear(
            match source_type {
                Some(t) => Some(t@),
                None => None,
            },
        ),
{
    match source_type {
        Some(st) => match source_kind(st) {
            Some(SourceKind::Screen) => {
                cache.screen = None;
            },
            Some(SourceKind::Window) => {
                cache.window = None;
            },
            None => {},
        },
        None => {
            cache.screen = None;
            cache.window = None;
        },
    }
}

/// The sources a client collects by asking for page after page from `offset`,
/// moving the offset by what each page held, until a page says none remain.
pub open spec fn pages_from(c: Seq<ScreenSource>, offset: nat) -> Seq<ScreenSource>
    decreases c.len() - offset,
{
    if offset >= c.len() {
        Seq::empty()
    } else if page_has_more(c, offset as int) {
        page_items(c, offset as int) + pages_from(
            c,
            (offset + page_items(c, offset as int).len()) as nat,
        )
    } else {
        page_items(c, offset as int)
    }
}

proof fn lemma_pages_from(c: Seq<ScreenSource>, offset: nat)
    requires
        offset <= c.len(),
    ensures
        pages_from(c, offset) == c.skip(offset as int),
    decreases c.len() - offset,
{
    if offset >= c.len() {
        assert(c.skip(offset as int) =~= Seq::<ScreenSource>::empty());
    } else {
        let items = page_items(c, offset as int);
        if page_has_more(c, offset as int) {
            lemma_pages_from(c, (offset + items.len()) as nat);
            assert(items + c.skip((offset + items.len()) as int) =~= c.skip(offset as int));
        } else {
            assert(items =~= c.skip(offset as int));
        }
    }
}

/// Paging never skips nor repeats a source: the first answer followed, while it
/// says more remain, by the pages loaded from offset twelve on, is the whole list.
pub proof fn pagination_covers_all(c: Seq<ScreenSource>)
    ensures
        initial_items(c) + (if c.len() > INITIAL_BATCH_SIZE {
            pages_from(c, INITIAL_BATCH_SIZE as nat)
        } else {
            Seq::empty()
        }) == c,
{
    if c.len() > INITIAL_BATCH_SIZE {
        lemma_pages_from(c, INITIAL_BATCH_SIZE as nat);
        assert(c.take(INITIAL_BATCH_SIZE as int) + c.skip(INITIAL_BATCH_SIZE as int) =~= c);
    } else {
        assert(initial_items(c) + Seq::<ScreenSource>::empty() =~= c);
    }
}

/// A first answer holds at most twelve sources and a later page at most eight.
pub proof fn pages_are_bounded(c: Seq<ScreenSource>, offset: nat)
    ensures
        initial_items(c).len() <= INITIAL_BATCH_SIZE,
        page_items(c, offset as int).len() <= LOAD_MORE_BATCH_SIZE,
        page_items(c, offset as int).len() == 0 || offset + page_items(c, offset as int).len()
            <= c.len(),
{
}

/// Pages are as full as the list allows: the first answer holds the first
/// `min(12, n)` sources of a list of `n`, a page from offset `o` holds the
/// sources from `o` up to `min(o + 8, n)`, and more remain after it exactly when
/// `o + 8 < n`.
pub proof fn pages_are_full(c: Seq<ScreenSource>, offset: nat)
    ensures
        initial_items(c) == c.take(if c.len() < 12 {
            c.len() as int
        } else {
            12
        }),
        offset <= c.len() ==> page_items(c, offset as int) == c.subrange(
            offset as int,
            if offset + 8 < c.len() {
                offset + 8int
            } else {
                c.len() as int
            },
        ),
        offset <= c.len() ==> (page_has_more(c, offset as int) == (offset + 8 < c.len())),
        offset >= c.len() ==> page_items(c, offset as int).len() == 0,
{
    assert(c.take(c.len() as int) =~= c);
    assert(c.subrange(offset as int, c.len() as int) =~= c.skip(offset as int));
}

/// Each kind is named by its own text.
pub proof fn kind_text_names_kind(k: SourceKind)
    ensures
        spec_source_kind(kind_text(k)) == Some(k),
{
    reveal_strlit("screen");
    reveal_strlit("window");
    assert("screen"@ != "window"@) by {
        assert("screen"@[0] != "window"@[0]);
    }
}

/// A source-type text names a kind exactly when it is that kind's own text
/// (`screen` or `window`); every other text names none.
pub proof fn only_kind_texts_name_kinds(t: Seq<char>, k: SourceKind)
    ensures
        (spec_source_kind(t) == Some(k)) == (t == kind_text(k)),
        spec_source_kind(t) is None == (t != "screen"@ && t != "window"@),
{
    kind_text_names_kind(k);
}

/// A list cached under a kind is what later requests for that kind read, and
/// the other kind's entry is left as it was.
pub proof fn cache_reads_what_was_stored(s: CacheState, k: SourceKind, v: Seq<ScreenSource>)
    ensures
        s.store(k, v).cached(kind_text(k)) == Some(v),
        forall|other: SourceKind| other != k ==> s.store(k, v).entry(other) == s.entry(other),
{
    kind_text_names_kind(k);
}

/// After clearing a type, nothing is cached under it; after clearing every
/// type, nothing is cached at all.
pub proof fn cache_clear_forgets(s: CacheState, t: Seq<char>)
    ensures
        s.clear(Some(t)).cached(t) is None,
        s.clear(None).cached(t) is None,
{
}

/// Clearing one type leaves the other type's entry as it was; clearing with a
/// text that names no type changes nothing.
pub proof fn cache_clear_keeps_others(s: CacheState, k: SourceKind, other: SourceKind, t: Seq<char>)
    ensures
        other != k ==> s.clear(Some(kind_text(k))).entry(other) == s.entry(other),
        spec_source_kind(t) is None ==> s.clear(Some(t)) == s,
{
    kind_text_names_kind(k);
}

/// Base64 text of `data` (standard alphabet, padded).
pub fn base64_encode(data: &[u8]) -> (r: String)
    ensures
        r@ == spec_base64_encode(data@),
{
    encode(data)
}

/// Whether a `width` x `height` RGBA8 buffer can be read from `len` bytes.
pub open spec fn rgba_fits(width: u32, height: u32, len: int) -> bool {
    4 * ((width as int) * (height as int)) <= len
}

/// The thumbnail data URL of a `width` x `height` RGBA8 image read from `data`:
/// empty when `data` is too short for that size or PNG encoding fails; otherwise
/// `data:image/png;base64,` followed by the base64 text of the PNG file of the
/// image resampled (triangle filter) to the thumbnail size.
pub open spec fn spec_image_data_url(data: Seq<u8>, width: u32, height: u32, size: ThumbnailSize) -> Seq<char> {
    if !rgba_fits(width, height, data.len() as int) {
        Seq::empty()
    } else {
        match spec_png_rgba(
            size.width,
            size.height,
            spec_resize_triangle(width, height, data, size.width, size.height),
        ) {
            None => Seq::empty(),
            Some(png) => "data:image/png;base64,"@ + spec_base64_encode(png),
        }
    }
}

/// Converts raw RGBA8 pixels to a PNG thumbnail data URL (empty on failure).
pub fn image_to_data_url(data: &[u8], width: u32, height: u32, thumbnail_size: ThumbnailSize) -> (r:
    String)
    requires
        rgba_fits(width, height, data.len() as int) ==> resize_fits(
            width,
            height,
            data.len() as int,
            thumbnail_size.width,
            thumbnail_size.height,
        ),
    ensures
        r@ == spec_image_data_url(data@, width, height, thumbnail_size),
{
    assert((width as int) * (height as int) <= 0xffff_ffff * 0xffff_ffff) by (nonlinear_arith)
        requires
            width <= 0xffff_ffff,
            height <= 0xffff_ffff,
    ;
    let needed: u128 = 4u128 * ((width as u128) * (height as u128));
    if needed > data.len() as u128 {
        return String::new();
    }
    let resized = resize_rgba_triangle(
        width,
        height,
        data,
        thumbnail_size.width,
        thumbnail_size.height,
    );
    match encode_png_rgba(thumbnail_size.width, thumbnail_size.height, resized.as_slice()) {
        None => String::new(),
        Some(png) => {
            let encoded = base64_encode(png.as_slice());
            let mut url = String::from_str("data:image/png;base64,");
            url.append(encoded.as_str());
            url
        },
    }
}

} // verus!
