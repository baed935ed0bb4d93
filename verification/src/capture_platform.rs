//! The parts of per-platform source capture that need no system call: pixel
//! layout conversions, which windows are listed, and how sources are named.

use vstd::prelude::*;
use vstd::string::StringExecFns;
use crate::screen_capture::{
    image_to_data_url, rgba_fits, spec_image_data_url, ScreenSource, ThumbnailSize,
};
use crate::image_ops::{resize_fits, resize_sizes_ok, resize_sizes_ok_for};
use crate::text::{
    all_white_space, decimal_spells_number, digits_value, lemma_trim_empty, push_decimal, push_signed_decimal, spec_decimal,
    spec_signed_decimal, spec_utf8_lossy, str_chars, str_is, trim, trim_bounds, utf8_lossy,
};

verus! {

/// Whether `image_to_data_url` may be called for these sizes (see its `requires`).
pub open spec fn thumbnail_fits(width: u32, height: u32, len: int, size: ThumbnailSize) -> bool {
    rgba_fits(width, height, len) ==> resize_fits(width, height, len, size.width, size.height)
}

/// Executable test of `thumbnail_fits`.
pub fn check_thumbnail_fits(width: u32, height: u32, len: usize, size: ThumbnailSize) -> (b: bool)
    ensures
        b == thumbnail_fits(width, height, len as int, size),
{
    let w = width as u128;
    let h = height as u128;
    assert(w * h <= 0xffff_ffff * 0xffff_ffff) by (nonlinear_arith)
        requires
            w <= 0xffff_ffff,
            h <= 0xffff_ffff,
    ;
    let fits = 4 * (w * h) <= len as u128;
    !fits || resize_sizes_ok_for(width, height, size.width, size.height)
}

/// A whole-screen source named "Entire Screen".
fn entire_screen_source(id: String, thumbnail: String) -> (r: ScreenSource)
    ensures
        r.id@ == id@,
        r.name@ == "Entire Screen"@,
        r.thumbnail@ == thumbnail@,
        r.icon@.len() == 0,
        r.source_type@ == "screen"@,
{
    ScreenSource {
        id,
        name: String::from_str("Entire Screen"),
        thumbnail,
        icon: String::new(),
        source_type: String::from_str("screen"),
    }
}

/// A window source.
fn window_source(id: String, name: String, thumbnail: String) -> (r: ScreenSource)
    ensures
        r.id@ == id@,
        r.name@ == name@,
        r.thumbnail@ == thumbnail@,
        r.icon@.len() == 0,
        r.source_type@ == "window"@,
{
    ScreenSource { id, name, thumbnail, icon: String::new(), source_type: String::from_str("window") }
}

// ---------------------------------------------------------------------------
// Windows
// ---------------------------------------------------------------------------

/// Pixels in BGRA order turned into RGBA: in every complete group of four bytes
/// the first and third are exchanged; trailing bytes are kept.
pub open spec fn spec_swap_red_blue(p: Seq<u8>) -> Seq<u8> {
    Seq::new(
        p.len(),
        |i: int|
            if i < 4 * (p.len() / 4) {
                if i % 4 == 0 {
                    p[i + 2]
                } else if i % 4 == 2 {
                    p[i - 2]
                } else {
                    p[i]
                }
            } else {
                p[i]
            },
    )
}

/// Exchanges the first and third byte of every complete group of four.
pub fn swap_red_blue(pixels: &mut Vec<u8>)
    ensures
        final(pixels)@ == spec_swap_red_blue(old(pixels)@),
{
    let ghost orig = pixels@;
    let n = pixels.len();
    let mut i: usize = 0;
    while n - i >= 4
        invariant
            n == pixels@.len(),
            n == orig.len(),
            i % 4 == 0,
            i <= n,
            forall|j: int| 0 <= j < i ==> pixels@[j] == spec_swap_red_blue(orig)[j],
            forall|j: int| i <= j < n ==> pixels@[j] == orig[j],
        decreases n - i,
    {
        let a = pixels[i];
        let c = pixels[i + 2];
        pixels.set(i, c);
        pixels.set(i + 2, a);
        i = i + 4;
    }
    assert(pixels@ =~= spec_swap_red_blue(orig));
}

/// Data URL of a Windows bitmap read back as BGRA pixels.
pub fn windows_bitmap_to_data_url(pixels: Vec<u8>, width: u32, height: u32, size: ThumbnailSize) -> (r:
    String)
    requires
        thumbnail_fits(width, height, pixels.len() as int, size),
    ensures
        r@ == spec_image_data_url(spec_swap_red_blue(pixels@), width, height, size),
{
    let mut pixels = pixels;
    swap_red_blue(&mut pixels);
    image_to_data_url(pixels.as_slice(), width, height, size)
}

/// Source for the whole (virtual) screen whose origin is `(x, y)`: id `screen:x:y`.
pub fn windows_screen_source(x: i32, y: i32, thumbnail: String) -> (r: ScreenSource)
    ensures
        r.id@ == "screen:"@ + spec_signed_decimal(x as int) + ":"@ + spec_signed_decimal(
            y as int,
        ),
        r.name@ == "Entire Screen"@,
        r.thumbnail@ == thumbnail@,
        r.icon@.len() == 0,
        r.source_type@ == "screen"@,
{
    let mut id = String::from_str("screen:");
    push_signed_decimal(&mut id, x as i64);
    id.append(":");
    push_signed_decimal(&mut id, y as i64);
    entire_screen_source(id, thumbnail)
}

/// The area captured as the whole screen: the virtual screen spanning all monitors
/// (origin and size), or the primary screen at `(0, 0)` when the virtual screen
/// reports an empty size.
pub fn windows_screen_area(
    virtual_x: i32,
    virtual_y: i32,
    virtual_width: u32,
    virtual_height: u32,
    primary_width: u32,
    primary_height: u32,
) -> (r: (i32, i32, u32, u32))
    ensures
        r == (if virtual_width == 0 || virtual_height == 0 {
            (0i32, 0i32, primary_width, primary_height)
        } else {
            (virtual_x, virtual_y, virtual_width, virtual_height)
        }),
{
    if virtual_width == 0 || virtual_height == 0 {
        (0, 0, primary_width, primary_height)
    } else {
        (virtual_x, virtual_y, virtual_width, virtual_height)
    }
}

/// Window classes of the shell that are never offered for sharing.
pub open spec fn is_system_window_class(c: Seq<char>) -> bool {
    ||| c == "Progman"@
    ||| c == "Windows.UI.Core.CoreWindow"@
    ||| c == "Shell_TrayWnd"@
    ||| c == "Shell_SecondaryTrayWnd"@
    ||| c == "DV2ControlHost"@
    ||| c == "MsgrIMEWindowClass"@
    ||| c == "SysShadow"@
    ||| c == "Button"@
}

/// Whether a visible window with this title, size and class is offered: its title
/// is not blank, it is at least 100 x 50, and it is not one of the shell's windows.
pub open spec fn spec_windows_window_listed(title: Seq<char>, width: u32, height: u32, class: Seq<char>) -> bool {
    &&& !all_white_space(title)
    &&& width >= 100
    &&& height >= 50
    &&& !is_system_window_class(class)
}

/// Executable test of `spec_windows_window_listed`.
pub fn windows_window_listed(title: &str, width: u32, height: u32, class_name: &str) -> (b: bool)
    ensures
        b == spec_windows_window_listed(title@, width, height, class_name@),
{
    if is_blank(title) {
        return false;
    }
    if width < 100 || height < 50 {
        return false;
    }
    !(str_is(class_name, "Progman") || str_is(class_name, "Windows.UI.Core.CoreWindow") || str_is(
        class_name,
        "Shell_TrayWnd",
    ) || str_is(class_name, "Shell_SecondaryTrayWnd") || str_is(class_name, "DV2ControlHost")
        || str_is(class_name, "MsgrIMEWindowClass") || str_is(class_name, "SysShadow") || str_is(
        class_name,
        "Button",
    ))
}

/// Windows of the shell (classes Progman, Windows.UI.Core.CoreWindow,
/// Shell_TrayWnd, Shell_SecondaryTrayWnd, DV2ControlHost, MsgrIMEWindowClass,
/// SysShadow and Button) are never offered, whatever their title and size; any
/// other window is offered exactly when its trimmed title is not empty and it is at
/// least 100 x 50.
pub proof fn shell_windows_are_never_listed(title: Seq<char>, width: u32, height: u32, class: Seq<char>)
    ensures
        (class == "Progman"@ || class == "Windows.UI.Core.CoreWindow"@ || class == "Shell_TrayWnd"@
            || class == "Shell_SecondaryTrayWnd"@ || class == "DV2ControlHost"@ || class
            == "MsgrIMEWindowClass"@ || class == "SysShadow"@ || class == "Button"@)
            ==> !spec_windows_window_listed(title, width, height, class),
        !(class == "Progman"@ || class == "Windows.UI.Core.CoreWindow"@ || class == "Shell_TrayWnd"@
            || class == "Shell_SecondaryTrayWnd"@ || class == "DV2ControlHost"@ || class
            == "MsgrIMEWindowClass"@ || class == "SysShadow"@ || class == "Button"@)
            ==> (spec_windows_window_listed(title, width, height, class) == (trim(title).len() > 0
            && width >= 100 && height >= 50)),
{
    lemma_trim_empty(title);
}

/// Whether `s.trim()` is empty.
pub fn is_blank(s: &str) -> (b: bool)
    ensures
        b == all_white_space(s@),
        b == (trim(s@).len() == 0),
{
    let chars = str_chars(s);
    let (lo, hi) = trim_bounds(&chars);
    proof {
        lemma_trim_empty(s@);
    }
    lo == hi
}

/// Source for a window, with id `window:<handle>:<process id>`.
pub fn windows_window_source(hwnd: usize, process_id: u32, title: String, thumbnail: String) -> (r:
    ScreenSource)
    ensures
        r.id@ == "window:"@ + spec_decimal(hwnd as nat) + ":"@ + spec_decimal(process_id as nat),
        r.name@ == title@,
        r.thumbnail@ == thumbnail@,
        r.icon@.len() == 0,
        r.source_type@ == "window"@,
{
    let mut id = String::from_str("window:");
    push_decimal(&mut id, hwnd as u64);
    id.append(":");
    push_decimal(&mut id, process_id as u64);
    window_source(id, title, thumbnail)
}

/// Whether a window of this size is large enough to be offered: at least 100 x 50.
pub fn window_size_listed(width: u32, height: u32) -> (b: bool)
    ensures
        b == (width >= 100 && height >= 50),
{
    width >= 100 && height >= 50
}

// ---------------------------------------------------------------------------
// macOS
// ---------------------------------------------------------------------------

/// Name of the display at position `index` of the active display list.
pub open spec fn spec_display_name(index: nat) -> Seq<char> {
    if index == 0 {
        "Entire Screen"@
    } else {
        "Screen "@ + spec_decimal(index + 1)
    }
}

/// Source for the display `display_id`, listed at position `index`: id `screen:<display id>`.
pub fn mac_display_source(display_id: u32, index: usize, thumbnail: String) -> (r: ScreenSource)
    requires
        index < usize::MAX,
    ensures
        r.id@ == "screen:"@ + spec_decimal(display_id as nat),
        r.name@ == spec_display_name(index as nat),
        r.thumbnail@ == thumbnail@,
        r.icon@.len() == 0,
        r.source_type@ == "screen"@,
{
    let mut id = String::from_str("screen:");
    push_decimal(&mut id, display_id as u64);
    let name = if index == 0 {
        String::from_str("Entire Screen")
    } else {
        let mut n = String::from_str("Screen ");
        push_decimal(&mut n, (index + 1) as u64);
        n
    };
    ScreenSource { id, name, thumbnail, icon: String::new(), source_type: String::from_str("screen") }
}

/// Name shown for a window: its owner's name, followed by `" - "` and the window's
/// own name when that is not empty.
pub open spec fn spec_mac_display_name(window_name: Seq<char>, owner_name: Seq<char>) -> Seq<char> {
    if window_name.len() == 0 {
        owner_name
    } else {
        owner_name + " - "@ + window_name
    }
}

/// Which window of the window list is offered, and as what: windows off layer 0
/// (when a layer is given), with number 0 (or none) or with a blank name are skipped;
/// the others give their number (as `u32`) and their display name.
pub open spec fn spec_mac_window_identity(
    layer: Option<Option<i32>>,
    window_number: Option<i32>,
    window_name: Seq<char>,
    owner_name: Seq<char>,
) -> Option<(u32, Seq<char>)> {
    let id: u32 = (match window_number {
        Some(n) => n,
        None => 0i32,
    }) as u32;
    let name = spec_mac_display_name(window_name, owner_name);
    if layer matches Some(l) && l != Some(0i32) {
        None
    } else if id == 0 {
        None
    } else if all_white_space(name) {
        None
    } else {
        Some((id, name))
    }
}

/// A window of the macOS window list is offered exactly when it is in the normal
/// layer (or gives no layer), has a number other than 0, and its display name is
/// not blank; it is offered under that number and name. The display name is the
/// owner's name, followed by ` - ` and the window's name when the window has one.
pub proof fn mac_windows_offered(
    layer: Option<Option<i32>>,
    window_number: Option<i32>,
    window_name: Seq<char>,
    owner_name: Seq<char>,
)
    ensures
        window_name.len() > 0 ==> spec_mac_display_name(window_name, owner_name) == owner_name
            + " - "@ + window_name,
        window_name.len() == 0 ==> spec_mac_display_name(window_name, owner_name) == owner_name,
        (spec_mac_window_identity(layer, window_number, window_name, owner_name) is Some) == ((
        layer is None || layer == Some(Some(0i32))) && (window_number matches Some(n) && n != 0)
            && trim(spec_mac_display_name(window_name, owner_name)).len() > 0),
        spec_mac_window_identity(layer, window_number, window_name, owner_name) matches Some(
            (id, name),
        ) ==> window_number matches Some(n) && id as i32 == n && name == spec_mac_display_name(
            window_name,
            owner_name,
        ),
{
    lemma_trim_empty(spec_mac_display_name(window_name, owner_name));
    if let Some(n) = window_number {
        assert((n as u32 == 0) == (n == 0)) by (bit_vector);
        assert((n as u32) as i32 == n) by (bit_vector);
    }
}

/// Decides whether a window-list entry is offered; `layer` is `None` when the entry
/// has no layer, `Some(None)` when its layer is not an `i32`. Missing names are empty.
pub fn mac_window_identity(
    layer: Option<Option<i32>>,
    window_number: Option<i32>,
    window_name: Option<String>,
    owner_name: Option<String>,
) -> (r: Option<(u32, String)>)
    ensures
        match r {
            Some((id, name)) => spec_mac_window_identity(
                layer,
                window_number,
                opt_text(window_name),
                opt_text(owner_name),
            ) == Some((id, name@)),
            None => spec_mac_window_identity(
                layer,
                window_number,
                opt_text(window_name),
                opt_text(owner_name),
            ) is None,
        },
{
    match layer {
        Some(l) => {
            let normal = match l {
                Some(v) => v == 0,
                None => false,
            };
            if !normal {
                return None;
            }
        },
        None => {},
    }
    let number: i32 = match window_number {
        Some(n) => n,
        None => 0,
    };
    let window_id = number as u32;
    if window_id == 0 {
        return None;
    }
    let window_name = match window_name {
        Some(s) => s,
        None => String::new(),
    };
    let owner_name = match owner_name {
        Some(s) => s,
        None => String::new(),
    };
    let display_name = if window_name.as_str().is_empty() {
        owner_name
    } else {
        let mut d = owner_name;
        d.append(" - ");
        d.append(window_name.as_str());
        d
    };
    if is_blank(display_name.as_str()) {
        return None;
    }
    Some((window_id, display_name))
}

/// The text of an optional string, empty when absent.
pub open spec fn opt_text(s: Option<String>) -> Seq<char> {
    match s {
        Some(s) => s@,
        None => Seq::empty(),
    }
}

/// Source for the window numbered `window_id`: id `window:<number>`.
pub fn numbered_window_source(window_id: u32, name: String, thumbnail: String) -> (r: ScreenSource)
    ensures
        r.id@ == "window:"@ + spec_decimal(window_id as nat),
        r.name@ == name@,
        r.thumbnail@ == thumbnail@,
        r.icon@.len() == 0,
        r.source_type@ == "window"@,
{
    let mut id = String::from_str("window:");
    push_decimal(&mut id, window_id as u64);
    window_source(id, name, thumbnail)
}

/// The RGBA pixel that pixel `(x, y)` of a BGRA image gives, or nothing when
/// its four bytes are not all inside `bytes`.
pub open spec fn cg_pixel(bytes: Seq<u8>, bytes_per_row: int, y: int, x: int) -> Seq<u8> {
    let o = y * bytes_per_row + x * 4;
    if o + 3 < bytes.len() {
        seq![bytes[o + 2], bytes[o + 1], bytes[o], bytes[o + 3]]
    } else {
        Seq::empty()
    }
}

/// The RGBA pixels of the first `n` pixels of row `y`.
pub open spec fn cg_row(bytes: Seq<u8>, bytes_per_row: int, y: int, n: nat) -> Seq<u8>
    decreases n,
{
    if n == 0 {
        Seq::empty()
    } else {
        cg_row(bytes, bytes_per_row, y, (n - 1) as nat) + cg_pixel(bytes, bytes_per_row, y, n - 1)
    }
}

/// The RGBA pixels of the first `n` rows, each `width` pixels wide.
pub open spec fn cg_rows(bytes: Seq<u8>, bytes_per_row: int, width: nat, n: nat) -> Seq<u8>
    decreases n,
{
    if n == 0 {
        Seq::empty()
    } else {
        cg_rows(bytes, bytes_per_row, width, (n - 1) as nat) + cg_row(
            bytes,
            bytes_per_row,
            n - 1,
            width,
        )
    }
}

/// Reads a `width` x `height` BGRA image laid out with `bytes_per_row` bytes per row
/// into RGBA pixels, skipping pixels that fall past the end of `bytes`.
pub fn cgimage_rgba(width: u32, height: u32, bytes_per_row: usize, bytes: &[u8]) -> (r: Vec<u8>)
    requires
        height > 0 ==> ((height - 1) as int) * (bytes_per_row as int) + 4 * (width as int) + 3
            <= usize::MAX,
    ensures
        r@ == cg_rows(bytes@, bytes_per_row as int, width as nat, height as nat),
{
    let mut out: Vec<u8> = Vec::new();
    let mut y: u32 = 0;
    while y < height
        invariant
            y <= height,
            height > 0 ==> ((height - 1) as int) * (bytes_per_row as int) + 4 * (width as int) + 3
                <= usize::MAX,
            out@ == cg_rows(bytes@, bytes_per_row as int, width as nat, y as nat),
        decreases height - y,
    {
        assert((y as int) * (bytes_per_row as int) <= ((height - 1) as int) * (bytes_per_row as int))
            by (nonlinear_arith)
            requires
                y <= height - 1,
        ;
        let row_start = (y as usize) * bytes_per_row;
        let ghost rows_before = out@;
        let mut x: u32 = 0;
        while x < width
            invariant
                x <= width,
                y < height,
                row_start == (y as int) * (bytes_per_row as int),
                row_start + 4 * (width as int) + 3 <= usize::MAX,
                out@ == rows_before + cg_row(bytes@, bytes_per_row as int, y as int, x as nat),
            decreases width - x,
        {
            let offset = row_start + (x as usize) * 4;
            let ghost before = out@;
            if offset + 3 < bytes.len() {
                out.push(bytes[offset + 2]);
                out.push(bytes[offset + 1]);
                out.push(bytes[offset]);
                out.push(bytes[offset + 3]);
            }
            assert(out@ =~= before + cg_pixel(bytes@, bytes_per_row as int, y as int, x as int));
            assert(out@ =~= rows_before + cg_row(
                bytes@,
                bytes_per_row as int,
                y as int,
                (x + 1) as nat,
            ));
            x = x + 1;
        }
        y = y + 1;
    }
    out
}

/// Data URL of a macOS window or display image; `None` for an empty image.
pub fn cgimage_to_data_url(
    width: u32,
    height: u32,
    bytes_per_row: usize,
    bytes: &[u8],
    size: ThumbnailSize,
) -> (r: Option<String>)
    requires
        width > 0 && height > 0 ==> {
            &&& ((height - 1) as int) * (bytes_per_row as int) + 4 * (width as int) + 3
                <= usize::MAX
            &&& resize_sizes_ok(width, height, size.width, size.height)
        },
    ensures
        match r {
            None => width == 0 || height == 0,
            Some(url) => width > 0 && height > 0 && url@ == spec_image_data_url(
                cg_rows(bytes@, bytes_per_row as int, width as nat, height as nat),
                width,
                height,
                size,
            ),
        },
{
    if width == 0 || height == 0 {
        return None;
    }
    let rgba = cgimage_rgba(width, height, bytes_per_row, bytes);
    Some(image_to_data_url(rgba.as_slice(), width, height, size))
}

// ---------------------------------------------------------------------------
// Linux (X11)
// ---------------------------------------------------------------------------

/// RGBA pixels of a ZPixmap image in BGRX order: each group of four bytes gives
/// its third, second, first and fourth byte; a final group of three gets alpha 255;
/// a final group of one or two bytes is dropped.
pub open spec fn spec_x11_rgba(d: Seq<u8>) -> Seq<u8>
    decreases d.len(),
{
    if d.len() >= 4 {
        seq![d[2], d[1], d[0], d[3]] + spec_x11_rgba(d.skip(4))
    } else if d.len() == 3 {
        seq![d[2], d[1], d[0], 255u8]
    } else {
        Seq::empty()
    }
}

/// Reads an X11 ZPixmap of depth 24 or 32 into RGBA pixels.
pub fn x11_pixels_to_rgba(data: &[u8]) -> (r: Vec<u8>)
    ensures
        r@ == spec_x11_rgba(data@),
{
    let mut out: Vec<u8> = Vec::new();
    let n = data.len();
    let mut i: usize = 0;
    assert(data@.skip(0) =~= data@);
    while i < n
        invariant
            i <= n,
            n == data@.len(),
            spec_x11_rgba(data@) == out@ + spec_x11_rgba(data@.skip(i as int)),
        decreases n - i,
    {
        let ghost tail = data@.skip(i as int);
        let ghost before = out@;
        let rest = n - i;
        if rest >= 3 {
            out.push(data[i + 2]);
            out.push(data[i + 1]);
            out.push(data[i]);
            if rest >= 4 {
                out.push(data[i + 3]);
            } else {
                out.push(255);
            }
        }
        let step: usize = if rest >= 4 { 4 } else { rest };
        proof {
            if rest >= 4 {
                assert(tail.skip(4) =~= data@.skip(i + 4));
                assert(before + (seq![tail[2], tail[1], tail[0], tail[3]] + spec_x11_rgba(tail.skip(4)))
                    =~= out@ + spec_x11_rgba(data@.skip(i + 4)));
            } else {
                assert(data@.skip(i + step) =~= Seq::<u8>::empty());
                assert(out@ =~= before + spec_x11_rgba(tail));
                assert(out@ + spec_x11_rgba(Seq::<u8>::empty()) =~= out@);
            }
        }
        i = i + step;
    }
    assert(data@.skip(n as int) =~= Seq::<u8>::empty());
    assert(out@ + Seq::<u8>::empty() =~= out@);
    out
}

/// Data URL of an X11 window image of the given depth: `None` for an empty image
/// or a depth other than 24 or 32.
pub fn x11_image_to_data_url(depth: u8, data: &[u8], width: u32, height: u32, size: ThumbnailSize) -> (r:
    Option<String>)
    requires
        data.len() > 0 && (depth == 24 || depth == 32) ==> resize_sizes_ok(
            width,
            height,
            size.width,
            size.height,
        ),
    ensures
        match r {
            None => data.len() == 0 || !(depth == 24 || depth == 32),
            Some(url) => data.len() > 0 && (depth == 24 || depth == 32) && url@
                == spec_image_data_url(spec_x11_rgba(data@), width, height, size),
        },
{
    if data.len() == 0 {
        return None;
    }
    if depth == 24 || depth == 32 {
        let rgba = x11_pixels_to_rgba(data);
        Some(image_to_data_url(rgba.as_slice(), width, height, size))
    } else {
        None
    }
}

/// Source for the X11 screen `screen_num`: id `screen:<number>`.
pub fn x11_screen_source(screen_num: usize, thumbnail: String) -> (r: ScreenSource)
    ensures
        r.id@ == "screen:"@ + spec_decimal(screen_num as nat),
        r.name@ == "Entire Screen"@,
        r.thumbnail@ == thumbnail@,
        r.icon@.len() == 0,
        r.source_type@ == "screen"@,
{
    let mut id = String::from_str("screen:");
    push_decimal(&mut id, screen_num as u64);
    entire_screen_source(id, thumbnail)
}

/// The name an X11 window property gives: `None` when the property is empty,
/// otherwise its bytes decoded as by `String::from_utf8_lossy`.
pub fn x11_window_name(value: &[u8]) -> (r: Option<String>)
    ensures
        match r {
            None => value.len() == 0,
            Some(name) => value.len() > 0 && name@ == spec_utf8_lossy(value@),
        },
{
    if value.len() == 0 {
        None
    } else {
        Some(utf8_lossy(value))
    }
}

/// Every pixel conversion yields whole RGBA pixels: the X11 conversion and the
/// macOS row reader produce a multiple of four bytes, and the Windows channel
/// swap keeps the length of the buffer.
pub proof fn conversions_yield_whole_pixels(
    data: Seq<u8>,
    bytes: Seq<u8>,
    bytes_per_row: int,
    width: nat,
    height: nat,
)
    ensures
        spec_x11_rgba(data).len() % 4 == 0,
        spec_x11_rgba(data).len() <= data.len() + 1,
        cg_rows(bytes, bytes_per_row, width, height).len() % 4 == 0,
        spec_swap_red_blue(data).len() == data.len(),
{
    lemma_x11_len(data);
    lemma_cg_rows_len(bytes, bytes_per_row, width, height);
}

proof fn lemma_x11_len(d: Seq<u8>)
    ensures
        spec_x11_rgba(d).len() % 4 == 0,
        spec_x11_rgba(d).len() <= d.len() + 1,
    decreases d.len(),
{
    if d.len() >= 4 {
        lemma_x11_len(d.skip(4));
    }
}

proof fn lemma_cg_row_len(bytes: Seq<u8>, bytes_per_row: int, y: int, n: nat)
    ensures
        cg_row(bytes, bytes_per_row, y, n).len() % 4 == 0,
    decreases n,
{
    if n > 0 {
        lemma_cg_row_len(bytes, bytes_per_row, y, (n - 1) as nat);
    }
}

proof fn lemma_cg_rows_len(bytes: Seq<u8>, bytes_per_row: int, width: nat, n: nat)
    ensures
        cg_rows(bytes, bytes_per_row, width, n).len() % 4 == 0,
    decreases n,
{
    if n > 0 {
        lemma_cg_rows_len(bytes, bytes_per_row, width, (n - 1) as nat);
        lemma_cg_row_len(bytes, bytes_per_row, n - 1, width);
    }
}

/// The four bytes of pixel `j` of a packed 4-byte-per-pixel buffer.
pub open spec fn pixel(s: Seq<u8>, j: int) -> Seq<u8> {
    s.subrange(4 * j, 4 * j + 4)
}

/// Converting a BGRA bitmap to RGBA exchanges the first and third byte of every
/// complete pixel and keeps its second and fourth; bytes past the last complete
/// pixel stay, and converting twice gives the bitmap back.
pub proof fn bitmap_swaps_red_and_blue(p: Seq<u8>)
    ensures
        spec_swap_red_blue(p).len() == p.len(),
        forall|j: int|
            0 <= j && 4 * j + 4 <= p.len() ==> #[trigger] pixel(spec_swap_red_blue(p), j) == seq![
                p[4 * j + 2],
                p[4 * j + 1],
                p[4 * j],
                p[4 * j + 3],
            ],
        forall|i: int| 4 * (p.len() / 4) <= i < p.len() ==> #[trigger] spec_swap_red_blue(p)[i] == p[i],
        spec_swap_red_blue(spec_swap_red_blue(p)) == p,
{
    let r = spec_swap_red_blue(p);
    assert forall|j: int| 0 <= j && 4 * j + 4 <= p.len() implies #[trigger] pixel(r, j) == seq![
        p[4 * j + 2],
        p[4 * j + 1],
        p[4 * j],
        p[4 * j + 3],
    ] by {
        assert(4 * j + 4 <= 4 * (p.len() / 4));
        assert((4 * j) % 4 == 0);
        assert((4 * j + 1) % 4 == 1);
        assert((4 * j + 2) % 4 == 2);
        assert((4 * j + 3) % 4 == 3);
        assert(pixel(r, j) =~= seq![p[4 * j + 2], p[4 * j + 1], p[4 * j], p[4 * j + 3]]);
    }
    let rr = spec_swap_red_blue(r);
    assert forall|i: int| 0 <= i < p.len() implies #[trigger] rr[i] == p[i] by {
        if i < 4 * (p.len() / 4) {
            if i % 4 == 0 {
                assert(i + 2 < 4 * (p.len() / 4));
                assert((i + 2) % 4 == 2);
            } else if i % 4 == 2 {
                assert((i - 2) % 4 == 0);
            }
        }
    }
    assert(rr =~= p);
}

/// An X11 pixmap of depth 24 or 32 (BGRX bytes) gives one RGBA pixel for each
/// complete group of four bytes, red, green and blue taken from the third, second
/// and first byte and the fourth kept; three bytes left over give one more pixel,
/// opaque; fewer give nothing.
pub proof fn x11_pixels_reordered(d: Seq<u8>)
    ensures
        spec_x11_rgba(d).len() == 4 * (d.len() / 4) + (if d.len() % 4 == 3 {
            4int
        } else {
            0int
        }),
        forall|j: int|
            0 <= j && 4 * j + 4 <= d.len() ==> #[trigger] pixel(spec_x11_rgba(d), j) == seq![
                d[4 * j + 2],
                d[4 * j + 1],
                d[4 * j],
                d[4 * j + 3],
            ],
        d.len() % 4 == 3 ==> ({
            let k: int = (d.len() / 4) as int;
            pixel(spec_x11_rgba(d), k) == seq![d[4 * k + 2], d[4 * k + 1], d[4 * k], 255u8]
        }),
    decreases d.len(),
{
    let r = spec_x11_rgba(d);
    if d.len() >= 4 {
        let t = d.skip(4);
        let rest = spec_x11_rgba(t);
        x11_pixels_reordered(t);
        let head = seq![d[2], d[1], d[0], d[3]];
        assert(r == head + rest);
        assert(t.len() / 4 == d.len() / 4 - 1);
        assert(t.len() % 4 == d.len() % 4);
        assert forall|j: int| 0 <= j && 4 * j + 4 <= d.len() implies #[trigger] pixel(r, j) == seq![
            d[4 * j + 2],
            d[4 * j + 1],
            d[4 * j],
            d[4 * j + 3],
        ] by {
            if j == 0 {
                assert(pixel(r, j) =~= head);
            } else {
                assert(pixel(rest, j - 1) == seq![
                    t[4 * (j - 1) + 2],
                    t[4 * (j - 1) + 1],
                    t[4 * (j - 1)],
                    t[4 * (j - 1) + 3],
                ]);
                assert(pixel(r, j) =~= pixel(rest, j - 1));
            }
        }
        if d.len() % 4 == 3 {
            let k: int = (d.len() / 4) as int;
            assert(pixel(r, k) =~= pixel(rest, k - 1));
        }
    } else if d.len() == 3 {
        assert(pixel(r, 0) =~= r);
    }
}

/// The first display is the entire screen; every later one is `Screen ` followed
/// by its position counted from one.
pub proof fn displays_are_numbered_from_one(index: nat)
    ensures
        index == 0 ==> spec_display_name(index) == "Entire Screen"@,
        index > 0 ==> spec_display_name(index).take(7) == "Screen "@ && digits_value(
            spec_display_name(index).skip(7),
            10,
            false,
        ) == index + 1,
{
    if index > 0 {
        reveal_strlit("Screen ");
        decimal_spells_number(index + 1);
        let n = spec_display_name(index);
        assert(n.take(7) =~= "Screen "@);
        assert(n.skip(7) =~= spec_decimal(index + 1));
    }
}

/// Pixel `(x, y)` of a packed RGBA image `width` pixels wide.
pub open spec fn image_pixel(s: Seq<u8>, width: nat, y: int, x: int) -> Seq<u8> {
    pixel(s, y * width + x)
}

/// Whether the four bytes of pixel `(x, y)` lie within `bytes`.
pub open spec fn pixel_in(bytes: Seq<u8>, bytes_per_row: int, y: int, x: int) -> bool {
    y * bytes_per_row + x * 4 + 3 < bytes.len()
}

proof fn lemma_cg_row_pixels(bytes: Seq<u8>, bytes_per_row: int, y: int, n: nat)
    requires
        forall|x: int| 0 <= x < n ==> #[trigger] pixel_in(bytes, bytes_per_row, y, x),
    ensures
        cg_row(bytes, bytes_per_row, y, n).len() == 4 * n,
        forall|x: int|
            0 <= x < n ==> #[trigger] pixel(cg_row(bytes, bytes_per_row, y, n), x) == cg_pixel(
                bytes,
                bytes_per_row,
                y,
                x,
            ),
    decreases n,
{
    if n > 0 {
        let m = (n - 1) as nat;
        lemma_cg_row_pixels(bytes, bytes_per_row, y, m);
        let prev = cg_row(bytes, bytes_per_row, y, m);
        let last = cg_pixel(bytes, bytes_per_row, y, n - 1);
        let row = cg_row(bytes, bytes_per_row, y, n);
        assert(row == prev + last);
        assert(pixel_in(bytes, bytes_per_row, y, n - 1));
        assert(last.len() == 4);
        assert forall|x: int| 0 <= x < n implies #[trigger] pixel(row, x) == cg_pixel(
            bytes,
            bytes_per_row,
            y,
            x,
        ) by {
            if x < m {
                assert(pixel(row, x) =~= pixel(prev, x));
            } else {
                assert(pixel(row, x) =~= last);
            }
        }
    }
}

proof fn lemma_cg_rows_pixels(bytes: Seq<u8>, bytes_per_row: int, width: nat, n: nat)
    requires
        forall|y: int, x: int|
            0 <= y < n && 0 <= x < width ==> #[trigger] pixel_in(bytes, bytes_per_row, y, x),
    ensures
        cg_rows(bytes, bytes_per_row, width, n).len() == 4 * width * n,
        forall|y: int, x: int|
            0 <= y < n && 0 <= x < width ==> #[trigger] image_pixel(
                cg_rows(bytes, bytes_per_row, width, n),
                width,
                y,
                x,
            ) == cg_pixel(bytes, bytes_per_row, y, x),
    decreases n,
{
    if n == 0 {
        assert(4 * width * n == 0) by (nonlinear_arith)
            requires
                n == 0,
        ;
    }
    if n > 0 {
        let m = (n - 1) as nat;
        lemma_cg_rows_pixels(bytes, bytes_per_row, width, m);
        lemma_cg_row_pixels(bytes, bytes_per_row, m as int, width);
        let prev = cg_rows(bytes, bytes_per_row, width, m);
        let row = cg_row(bytes, bytes_per_row, m as int, width);
        let all = cg_rows(bytes, bytes_per_row, width, n);
        assert(all == prev + row);
        assert(4 * width * m + 4 * width == 4 * width * n) by (nonlinear_arith)
            requires
                m + 1 == n,
        ;
        assert forall|y: int, x: int| 0 <= y < n && 0 <= x < width implies #[trigger] image_pixel(
            all,
            width,
            y,
            x,
        ) == cg_pixel(bytes, bytes_per_row, y, x) by {
            if y < m {
                assert(4 * (y * width + x) + 4 <= 4 * width * m) by (nonlinear_arith)
                    requires
                        0 <= y < m,
                        0 <= x < width,
                ;
                assert(image_pixel(all, width, y, x) =~= image_pixel(prev, width, y, x));
            } else {
                assert(4 * (y * width + x) == 4 * width * m + 4 * x) by (nonlinear_arith)
                    requires
                        y == m,
                ;
                assert(image_pixel(all, width, y, x) =~= pixel(row, x));
            }
        }
    }
}

/// A CoreGraphics BGRA image that lies within its bytes (every row `bytes_per_row`
/// bytes after the previous one) is read into `width * height` RGBA pixels, row
/// after row: pixel `(x, y)` takes red, green, blue and alpha from the third,
/// second, first and fourth byte at offset `y * bytes_per_row + 4 * x`.
pub proof fn cg_image_reads_each_pixel(bytes: Seq<u8>, bytes_per_row: int, width: nat, height: nat)
    requires
        0 <= bytes_per_row,
        height > 0 ==> (height - 1) * bytes_per_row + 4 * width <= bytes.len(),
    ensures
        cg_rows(bytes, bytes_per_row, width, height).len() == 4 * width * height,
        forall|y: int, x: int|
            0 <= y < height && 0 <= x < width ==> #[trigger] image_pixel(
                cg_rows(bytes, bytes_per_row, width, height),
                width,
                y,
                x,
            ) == ({
                let o = y * bytes_per_row + 4 * x;
                seq![bytes[o + 2], bytes[o + 1], bytes[o], bytes[o + 3]]
            }),
{
    assert forall|y: int, x: int| 0 <= y < height && 0 <= x < width implies #[trigger] pixel_in(
        bytes,
        bytes_per_row,
        y,
        x,
    ) by {
        assert(y * bytes_per_row <= (height - 1) * bytes_per_row) by (nonlinear_arith)
            requires
                0 <= y <= height - 1,
                0 <= bytes_per_row,
        ;
    }
    lemma_cg_rows_pixels(bytes, bytes_per_row, width, height);
    let out = cg_rows(bytes, bytes_per_row, width, height);
    assert forall|y: int, x: int| 0 <= y < height && 0 <= x < width implies #[trigger] image_pixel(
        out,
        width,
        y,
        x,
    ) == ({
        let o = y * bytes_per_row + 4 * x;
        seq![bytes[o + 2], bytes[o + 1], bytes[o], bytes[o + 3]]
    }) by {
        assert(pixel_in(bytes, bytes_per_row, y, x));
        assert(image_pixel(out, width, y, x) == cg_pixel(bytes, bytes_per_row, y, x));
    }
}

} // verus!
