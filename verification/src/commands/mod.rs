//! Pure parts of the desktop commands: the records they exchange with the web
//! front end and the decisions they take before acting on windows, the dock,
//! the clipboard or the updater.

pub mod base64;

use vstd::prelude::*;
use vstd::string::StringExecFns;
use crate::text::{concat_str, push_decimal, spec_decimal, str_chars, str_is, string_from_chars};
use self::base64::{encode, spec_base64_encode};
use crate::text::{lower_hex, spec_lower_hex};
use std::collections::hash_map::DefaultHasher;
use std::hash::Hasher;
use vstd::std_specs::hash::DefaultHasherAdditionalSpecFns;
use vstd::utf8::encode_utf8;

verus! {

// ---------------------------------------------------------------------------
// App info
// ---------------------------------------------------------------------------

/// Platform name in the form Electron's `process.platform` uses, for a Rust
/// target OS name (`std::env::consts::OS`).
pub open spec fn spec_platform_name(os: Seq<char>) -> Seq<char> {
    if os == "windows"@ {
        "win32"@
    } else if os == "macos"@ {
        "darwin"@
    } else if os == "linux"@ {
        "linux"@
    } else {
        "unknown"@
    }
}

/// Platform names follow Electron: Windows is `win32`, macOS is `darwin`, Linux
/// is `linux`, and every other system is `unknown`; no two of them share a name.
pub proof fn platform_names_follow_electron(os: Seq<char>)
    ensures
        (spec_platform_name(os) == "win32"@) == (os == "windows"@),
        (spec_platform_name(os) == "darwin"@) == (os == "macos"@),
        (spec_platform_name(os) == "linux"@) == (os == "linux"@),
        (spec_platform_name(os) == "unknown"@) == (os != "windows"@ && os != "macos"@ && os
            != "linux"@),
{
    reveal_strlit("win32");
    reveal_strlit("darwin");
    reveal_strlit("linux");
    reveal_strlit("unknown");
    assert("win32"@[0] != "darwin"@[0]);
    assert("win32"@[0] != "linux"@[0]);
    assert("win32"@[0] != "unknown"@[0]);
    assert("darwin"@[0] != "linux"@[0]);
    assert("darwin"@[0] != "unknown"@[0]);
    assert("linux"@[0] != "unknown"@[0]);
    reveal_strlit("windows");
    reveal_strlit("macos");
    assert("windows"@[0] != "macos"@[0]);
    assert("windows"@[0] != "linux"@[0]);
    assert("macos"@[0] != "linux"@[0]);
}

/// Executable `spec_platform_name`.
pub fn platform_name(os: &str) -> (r: String)
    ensures
        r@ == spec_platform_name(os@),
{
    if str_is(os, "windows") {
        String::from_str("win32")
    } else if str_is(os, "macos") {
        String::from_str("darwin")
    } else if str_is(os, "linux") {
        String::from_str("linux")
    } else {
        String::from_str("unknown")
    }
}

/// The writes that hashing a `str` makes into a hasher: its UTF-8 bytes, then
/// the byte `0xFF`.
pub open spec fn str_hash_writes(s: Seq<char>) -> Seq<Seq<u8>> {
    seq![encode_utf8(s), seq![0xFFu8]]
}

/// The writes that make up the device hash: the host name, then the user name,
/// each hashed as a `str` when known.
pub open spec fn device_hash_writes(hostname: Option<Seq<char>>, user: Option<Seq<char>>) -> Seq<
    Seq<u8>,
> {
    (match hostname {
        Some(h) => str_hash_writes(h),
        None => Seq::empty(),
    }) + (match user {
        Some(u) => str_hash_writes(u),
        None => Seq::empty(),
    })
}

/// Hashes `s` into `hasher` as `str::hash` does.
fn hash_str(hasher: &mut DefaultHasher, s: &str)
    ensures
        final(hasher)@ == old(hasher)@ + str_hash_writes(s@),
{
    hasher.write(s.as_bytes());
    let end: [u8; 1] = [0xFF];
    hasher.write(&end);
    assert(end@ =~= seq![0xFFu8]);
    assert(final(hasher)@ =~= old(hasher)@ + str_hash_writes(s@));
}

/// Identifier of this device: the lowercase hexadecimal notation of the
/// `DefaultHasher` hash of the host name and the user name, each when known.
pub fn device_id(hostname: Option<&str>, user: Option<&str>) -> (r: String)
    ensures
        r@ == spec_lower_hex(
            DefaultHasher::spec_finish(
                device_hash_writes(
                    match hostname {
                        Some(h) => Some(h@),
                        None => None,
                    },
                    match user {
                        Some(u) => Some(u@),
                        None => None,
                    },
                ),
            ) as nat,
        ),
{
    let mut hasher = DefaultHasher::new();
    match hostname {
        Some(h) => hash_str(&mut hasher, h),
        None => {},
    }
    match user {
        Some(u) => hash_str(&mut hasher, u),
        None => {},
    }
    proof {
        let host_view = match hostname {
            Some(h) => Some(h@),
            None => None,
        };
        let user_view = match user {
            Some(u) => Some(u@),
            None => None,
        };
        assert(hasher@ =~= device_hash_writes(host_view, user_view));
    }
    lower_hex(hasher.finish())
}

// ---------------------------------------------------------------------------
// Window management
// ---------------------------------------------------------------------------

/// Title bar buttons.
#[derive(Debug, Clone, Copy, PartialEq, Eq, Structural)]
pub enum TitleBarAction {
    Minimize,
    Maximize,
    Close,
    Hide,
}

/// What is done to the main window.
#[derive(Debug, Clone, Copy, PartialEq, Eq, Structural)]
pub enum WindowOp {
    Minimize,
    Maximize,
    Unmaximize,
    Hide,
}

/// What a title bar button does: maximize toggles, close only hides the window
/// (the app keeps running in the tray).
pub open spec fn spec_title_bar_plan(action: TitleBarAction, is_maximized: bool) -> WindowOp {
    match action {
        TitleBarAction::Minimize => WindowOp::Minimize,
        TitleBarAction::Maximize => if is_maximized {
            WindowOp::Unmaximize
        } else {
            WindowOp::Maximize
        },
        TitleBarAction::Close => WindowOp::Hide,
        TitleBarAction::Hide => WindowOp::Hide,
    }
}

/// Executable `spec_title_bar_plan`.
pub fn title_bar_plan(action: TitleBarAction, is_maximized: bool) -> (r: WindowOp)
    ensures
        r == spec_title_bar_plan(action, is_maximized),
{
    match action {
        TitleBarAction::Minimize => WindowOp::Minimize,
        TitleBarAction::Maximize => if is_maximized {
            WindowOp::Unmaximize
        } else {
            WindowOp::Maximize
        },
        TitleBarAction::Close => WindowOp::Hide,
        TitleBarAction::Hide => WindowOp::Hide,
    }
}

/// The minimize button minimizes the window whatever its state; the maximize
/// button toggles, restoring a maximized window and maximizing any other; close
/// and hide both hide the window, so that the app stays in the tray.
pub proof fn title_bar_buttons(is_maximized: bool, other: bool)
    ensures
        spec_title_bar_plan(TitleBarAction::Minimize, is_maximized) == WindowOp::Minimize,
        spec_title_bar_plan(TitleBarAction::Minimize, is_maximized) == spec_title_bar_plan(
            TitleBarAction::Minimize,
            other,
        ),
        (spec_title_bar_plan(TitleBarAction::Maximize, is_maximized) == WindowOp::Unmaximize)
            == is_maximized,
        (spec_title_bar_plan(TitleBarAction::Maximize, is_maximized) == WindowOp::Maximize) == !is_maximized,
        spec_title_bar_plan(TitleBarAction::Close, is_maximized) == WindowOp::Hide,
        spec_title_bar_plan(TitleBarAction::Hide, is_maximized) == WindowOp::Hide,
{
}

/// State of the main window as reported to the front end.
#[derive(Debug, Clone, Copy)]
pub struct WindowState {
    pub is_maximized: bool,
    pub is_minimized: bool,
    pub is_focused: bool,
    pub is_visible: bool,
}

// ---------------------------------------------------------------------------
// Badge
// ---------------------------------------------------------------------------

/// Dock badge text for an unread count: nothing for 0 or less, the digit up to
/// 9, `"9+"` above.
pub open spec fn spec_badge_text(count: i32) -> Seq<char> {
    if count > 9 {
        "9+"@
    } else if count > 0 {
        spec_decimal(count as nat)
    } else {
        Seq::empty()
    }
}

/// Executable `spec_badge_text`.
pub fn badge_text(count: i32) -> (r: String)
    ensures
        r@ == spec_badge_text(count),
{
    if count > 0 {
        if count > 9 {
            String::from_str("9+")
        } else {
            let mut s = String::new();
            push_decimal(&mut s, count as u64);
            s
        }
    } else {
        String::new()
    }
}

/// Text of the AppleScript that sets the dock badge, before the badge text.
pub open spec fn badge_script_head() -> Seq<char> {
    "\n            tell application \"System Events\"\n                tell dock preferences\n                    set badge of (application file id \"app.mezon.ai\") to \""@
}

/// Text of the AppleScript that sets the dock badge, after the badge text.
pub open spec fn badge_script_tail() -> Seq<char> {
    "\"\n                end tell\n            end tell\n            "@
}

/// The AppleScript run through `osascript` to show `count` on the dock icon.
pub fn badge_script(count: i32) -> (r: String)
    ensures
        r@ == badge_script_head() + spec_badge_text(count) + badge_script_tail(),
{
    let mut s = String::from_str(
        "\n            tell application \"System Events\"\n                tell dock preferences\n                    set badge of (application file id \"app.mezon.ai\") to \"",
    );
    let text = badge_text(count);
    s.append(text.as_str());
    s.append("\"\n                end tell\n            end tell\n            ");
    s
}

// ---------------------------------------------------------------------------
// Files
// ---------------------------------------------------------------------------

/// A file to download.
#[derive(Debug, Clone)]
pub struct DownloadFileOptions {
    pub url: String,
    pub filename: Option<String>,
}

/// The piece of `s` after its last `'/'` (all of `s` when it has none).
pub open spec fn after_last_slash(s: Seq<char>) -> Seq<char>
    decreases s.len(),
{
    if s.len() == 0 {
        s
    } else if s.last() == '/' {
        Seq::empty()
    } else {
        after_last_slash(s.drop_last()).push(s.last())
    }
}

/// The piece of `s` before its first `'?'` (all of `s` when it has none).
pub open spec fn before_first_question(s: Seq<char>) -> Seq<char>
    decreases s.len(),
{
    if s.len() == 0 || s[0] == '?' {
        Seq::empty()
    } else {
        seq![s[0]] + before_first_question(s.drop_first())
    }
}

/// Default name of a downloaded file: the last path segment of its URL, without
/// the query string.
pub open spec fn spec_url_file_name(url: Seq<char>) -> Seq<char> {
    before_first_question(after_last_slash(url))
}

/// Name under which a download is offered for saving: the given one, else the
/// one the URL suggests.
pub open spec fn spec_download_file_name(options: DownloadFileOptions) -> Seq<char> {
    match options.filename {
        Some(f) => f@,
        None => spec_url_file_name(options.url@),
    }
}

proof fn lemma_after_last_slash(s: Seq<char>)
    ensures
        after_last_slash(s).len() <= s.len(),
        s.skip(s.len() - after_last_slash(s).len()) == after_last_slash(s),
        after_last_slash(s).len() == s.len() || s[s.len() - after_last_slash(s).len() - 1] == '/',
        forall|j: int| s.len() - after_last_slash(s).len() <= j < s.len() ==> s[j] != '/',
    decreases s.len(),
{
    if s.len() > 0 && s.last() != '/' {
        let p = s.drop_last();
        lemma_after_last_slash(p);
        let a = after_last_slash(p);
        assert(s.skip(s.len() - a.len() - 1) =~= p.skip(p.len() - a.len()).push(s.last()));
        assert forall|j: int| s.len() - a.len() - 1 <= j < s.len() implies s[j] != '/' by {
            if j < s.len() - 1 {
                assert(s[j] == p[j]);
            }
        }
        if a.len() < p.len() {
            assert(s[s.len() - a.len() - 2] == p[p.len() - a.len() - 1]);
        }
    } else if s.len() > 0 {
        assert(s.skip(s.len() as int) =~= Seq::<char>::empty());
    } else {
        assert(s.skip(0) =~= s);
    }
}

proof fn lemma_before_first_question(s: Seq<char>)
    ensures
        before_first_question(s).len() <= s.len(),
        s.take(before_first_question(s).len() as int) == before_first_question(s),
        before_first_question(s).len() == s.len() || s[before_first_question(s).len() as int] == '?',
        forall|j: int| 0 <= j < before_first_question(s).len() ==> s[j] != '?',
    decreases s.len(),
{
    if s.len() > 0 && s[0] != '?' {
        let t = s.drop_first();
        lemma_before_first_question(t);
        let q = before_first_question(t);
        assert(s.take(q.len() + 1int) =~= seq![s[0]] + t.take(q.len() as int));
        assert forall|j: int| 0 <= j < q.len() + 1 implies s[j] != '?' by {
            if j > 0 {
                assert(s[j] == t[j - 1]);
            }
        }
        if q.len() < t.len() {
            assert(s[q.len() + 1int] == t[q.len() as int]);
        }
    } else {
        assert(s.take(0) =~= Seq::<char>::empty());
    }
}

/// The file name a URL suggests is the piece that starts right after its last
/// `'/'` (or at its start when it has none) and ends at the first `'?'` after that
/// (or at its end): it holds neither `'/'` nor `'?'`.
pub proof fn url_file_name_is_last_segment(url: Seq<char>)
    ensures
        ({
            let f = spec_url_file_name(url);
            exists|k: int|
                {
                    &&& 0 <= k
                    &&& k + f.len() <= url.len()
                    &&& #[trigger] url.subrange(k, k + f.len()) == f
                    &&& (k == 0 || url[k - 1] == '/')
                    &&& (forall|j: int| k <= j < url.len() ==> url[j] != '/')
                    &&& (k + f.len() == url.len() || url[k + f.len()] == '?')
                    &&& (forall|j: int| 0 <= j < f.len() ==> f[j] != '?')
                }
        }),
{
    let a = after_last_slash(url);
    let f = before_first_question(a);
    lemma_after_last_slash(url);
    lemma_before_first_question(a);
    let k = url.len() - a.len();
    assert(url.subrange(k, k + f.len()) =~= a.take(f.len() as int));
    if f.len() < a.len() {
        assert(url[k + f.len()] == a[f.len() as int]);
    }
    assert(spec_url_file_name(url) == f);
}

/// The badge shows nothing when there is nothing unread, the count itself as one
/// digit from 1 to 9, and `9+` above 9.
pub proof fn badge_shows_count(count: i32)
    ensures
        count <= 0 ==> spec_badge_text(count).len() == 0,
        1 <= count <= 9 ==> spec_badge_text(count) == seq![((48 + count) as u8) as char],
        count > 9 ==> spec_badge_text(count) == seq!['9', '+'],
{
    if count > 9 {
        reveal_strlit("9+");
        assert(spec_badge_text(count) =~= seq!['9', '+']);
    }
    if 1 <= count <= 9 {
        assert(spec_decimal(count as nat) =~= seq![((48 + count) as u8) as char]);
    }
}

/// Executable `spec_url_file_name`.
pub fn url_file_name(url: &str) -> (r: String)
    ensures
        r@ == spec_url_file_name(url@),
{
    let chars = str_chars(url);
    let n = chars.len();
    let mut seg: Vec<char> = Vec::new();
    let mut i: usize = 0;
    while i < n
        invariant
            i <= n,
            n == chars@.len(),
            seg@ == after_last_slash(chars@.take(i as int)),
        decreases n - i,
    {
        assert(chars@.take(i + 1).drop_last() =~= chars@.take(i as int));
        if chars[i] == '/' {
            seg = Vec::new();
        } else {
            seg.push(chars[i]);
        }
        i = i + 1;
    }
    assert(chars@.take(n as int) =~= chars@);
    let m = seg.len();
    let mut j: usize = 0;
    assert(seg@.skip(0) =~= seg@);
    assert(seg@.take(0) + before_first_question(seg@) =~= before_first_question(seg@));
    while j < m && seg[j] != '?'
        invariant
            j <= m,
            m == seg@.len(),
            before_first_question(seg@) == seg@.take(j as int) + before_first_question(
                seg@.skip(j as int),
            ),
        decreases m - j,
    {
        assert(seg@.skip(j as int).drop_first() =~= seg@.skip(j + 1));
        assert(seg@.take(j + 1) =~= seg@.take(j as int) + seq![seg@[j as int]]);
        j = j + 1;
    }
    proof {
        if j < m {
            assert(seg@.skip(j as int)[0] == '?');
        } else {
            assert(seg@.skip(j as int) =~= Seq::<char>::empty());
        }
        assert(seg@.take(j as int) + Seq::<char>::empty() =~= seg@.take(j as int));
    }
    string_from_chars(&seg.as_slice()[0..j])
}

/// Name under which a download is offered for saving.
pub fn download_file_name(options: &DownloadFileOptions) -> (r: String)
    ensures
        r@ == spec_download_file_name(*options),
{
    match &options.filename {
        Some(f) => f.clone(),
        None => url_file_name(options.url.as_str()),
    }
}

// ---------------------------------------------------------------------------
// Clipboard
// ---------------------------------------------------------------------------

/// Largest downloaded image that is handed to the front end for the clipboard: 50 MiB.
pub const MAX_CLIPBOARD_IMAGE: usize = 50 * 1024 * 1024;

/// Payload sent to the front end for an image copied from a URL: its bytes as
/// base64, or an error when it is larger than 50 MiB.
pub fn image_copy_payload(bytes: &[u8]) -> (r: Result<String, String>)
    ensures
        bytes.len() > MAX_CLIPBOARD_IMAGE ==> (r matches Err(e) && e@
            == "Image too large (max 50MB)"@),
        bytes.len() <= MAX_CLIPBOARD_IMAGE ==> (r matches Ok(s) && s@ == spec_base64_encode(
            bytes@,
        )),
{
    if bytes.len() > MAX_CLIPBOARD_IMAGE {
        return Err(String::from_str("Image too large (max 50MB)"));
    }
    Ok(encode(bytes))
}

// ---------------------------------------------------------------------------
// Image viewer
// ---------------------------------------------------------------------------

/// An attachment shown in the image viewer.
#[derive(Debug, Clone)]
pub struct AttachmentInfo {
    pub url: String,
    pub filename: Option<String>,
    pub filetype: Option<String>,
    pub size: Option<u64>,
}

/// What the image viewer window opens with.
#[derive(Debug, Clone)]
pub struct ImageWindowOptions {
    pub url: String,
    pub filename: Option<String>,
    pub sender_name: Option<String>,
    pub timestamp: Option<String>,
    pub attachments: Option<Vec<AttachmentInfo>>,
    pub current_index: Option<usize>,
}

/// Title of the image viewer window: the file name, else "Image Viewer".
pub fn image_window_title(options: &ImageWindowOptions) -> (r: String)
    ensures
        r@ == (match options.filename {
            Some(f) => f@,
            None => "Image Viewer"@,
        }),
{
    match &options.filename {
        Some(f) => f.clone(),
        None => String::from_str("Image Viewer"),
    }
}

/// Label of a new image viewer window, from a fresh unique suffix.
pub fn image_window_label(unique: &str) -> (r: String)
    ensures
        r@ == "image-viewer-"@ + unique@,
{
    concat_str("image-viewer-", unique)
}

/// Actions offered on an image in the viewer.
#[derive(Debug, Clone, Copy, PartialEq, Eq, Structural)]
pub enum ImageAction {
    CopyLink,
    CopyImage,
    OpenLink,
    SaveImage,
}

/// What an image action does with the image's URL.
#[derive(Debug, Clone)]
pub enum ImageActionPlan {
    /// Put the URL on the clipboard as text.
    CopyText(String),
    /// Download the image and hand it to the front end for the clipboard.
    CopyImageFrom(String),
    /// Open the URL with the system's handler.
    Open(String),
    /// Download the file with a save dialog.
    Download(DownloadFileOptions),
}

/// Executable plan of `handle_action_show_image`.
pub fn image_action_plan(action: ImageAction, url: String) -> (r: ImageActionPlan)
    ensures
        match action {
            ImageAction::CopyLink => r == ImageActionPlan::CopyText(url),
            ImageAction::CopyImage => r == ImageActionPlan::CopyImageFrom(url),
            ImageAction::OpenLink => r == ImageActionPlan::Open(url),
            ImageAction::SaveImage => r == ImageActionPlan::Download(
                DownloadFileOptions { url, filename: None },
            ),
        },
{
    match action {
        ImageAction::CopyLink => ImageActionPlan::CopyText(url),
        ImageAction::CopyImage => ImageActionPlan::CopyImageFrom(url),
        ImageAction::OpenLink => ImageActionPlan::Open(url),
        ImageAction::SaveImage => ImageActionPlan::Download(DownloadFileOptions { url, filename: None }),
    }
}

// ---------------------------------------------------------------------------
// Updates
// ---------------------------------------------------------------------------

/// Result of an update check.
#[derive(Debug, Clone)]
pub struct UpdateInfo {
    pub available: bool,
    pub version: Option<String>,
    pub notes: Option<String>,
}

/// Report of an update check from the update found, if any (its version and notes).
pub fn update_info(found: Option<(String, Option<String>)>) -> (r: UpdateInfo)
    ensures
        match found {
            Some((version, notes)) => r.available && r.version == Some(version) && r.notes
                == notes,
            None => !r.available && r.version is None && r.notes is None,
        },
{
    match found {
        Some((version, notes)) => UpdateInfo { available: true, version: Some(version), notes },
        None => UpdateInfo { available: false, version: None, notes: None },
    }
}

// ---------------------------------------------------------------------------
// Permissions
// ---------------------------------------------------------------------------

/// Microphone access needs no prior request: the system asks on first use.
pub fn request_permission_microphone() -> (r: Result<bool, String>)
    ensures
        r == Ok::<bool, String>(true),
{
    Ok(true)
}

/// Camera access needs no prior request: the system asks on first use.
pub fn request_permission_camera() -> (r: Result<bool, String>)
    ensures
        r == Ok::<bool, String>(true),
{
    Ok(true)
}

/// Microphone permission as reported to the front end: always "granted".
pub fn check_permission_microphone() -> (r: Result<String, String>)
    ensures
        r matches Ok(s) && s@ == "granted"@,
{
    Ok(String::from_str("granted"))
}

/// Camera permission as reported to the front end: always "granted".
pub fn check_permission_camera() -> (r: Result<String, String>)
    ensures
        r matches Ok(s) && s@ == "granted"@,
{
    Ok(String::from_str("granted"))
}

// ---------------------------------------------------------------------------
// Screen capture and activity tracking (command surface)
// ---------------------------------------------------------------------------

/// A screen source as the command surface describes it.
#[derive(Debug, Clone)]
pub struct ScreenSource {
    pub id: String,
    pub name: String,
    pub thumbnail: Option<String>,
    pub source_type: String,
}

/// Sources offered by the command surface: none (sharing goes through the
/// browser's `getDisplayMedia`).
pub fn get_screen_sources(_source_type: Option<String>) -> (r: Result<Vec<ScreenSource>, String>)
    ensures
        r matches Ok(v) && v@.len() == 0,
{
    Ok(Vec::new())
}

/// The active window as the command surface describes it.
#[derive(Debug, Clone)]
pub struct ActiveWindowInfo {
    pub title: String,
    pub owner: String,
    pub path: Option<String>,
}

/// Active window as the command surface reports it: none.
pub fn get_active_window() -> (r: Result<Option<ActiveWindowInfo>, String>)
    ensures
        r matches Ok(w) && w is None,
{
    Ok(None)
}

} // verus!
