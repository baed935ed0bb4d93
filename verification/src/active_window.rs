//! The currently focused window: the record reported for it and the parts of
//! reading it from the system that need no system call.

use vstd::prelude::*;
use vstd::string::StringExecFns;
use vstd::utf8::{
    decode_utf8, encode_utf8, encode_utf8_decode_utf8, encode_utf8_valid_utf8, valid_utf8,
};
use crate::text::{
    spec_utf8_lossy, str_chars, string_from_chars, utf16_lossy, utf16_lossy_prefix,
    utf8_lossy,
};

verus! {

/// Information about the currently active window.
#[derive(Debug, Clone)]
pub struct ActiveWindowInfo {
    /// The window class or application name (e.g. "Code", "Spotify", "chrome").
    pub window_class: String,
    /// The window title.
    pub window_name: String,
    /// The executable path, when known.
    pub path: Option<String>,
    /// Process id, when known.
    pub pid: Option<u32>,
}

// ---------------------------------------------------------------------------
// Windows
// ---------------------------------------------------------------------------

/// A module name without a trailing `.exe` (or `.EXE`).
pub open spec fn spec_strip_exe(name: Seq<char>) -> Seq<char> {
    if name.len() >= 4 && name.skip(name.len() - 4) == ".exe"@ {
        name.take(name.len() - 4)
    } else if name.len() >= 4 && name.skip(name.len() - 4) == ".EXE"@ {
        name.take(name.len() - 4)
    } else {
        name
    }
}

/// Whether `s` ends with the four characters of `suffix`.
fn ends_with4(s: &Vec<char>, suffix: &Vec<char>) -> (b: bool)
    requires
        suffix.len() == 4,
    ensures
        b == (s.len() >= 4 && s@.skip(s.len() - 4) == suffix@),
{
    let n = s.len();
    if n < 4 {
        return false;
    }
    let mut i: usize = 0;
    while i < 4
        invariant
            n == s.len(),
            n >= 4,
            suffix.len() == 4,
            i <= 4,
            forall|j: int| 0 <= j < i ==> s@[n - 4 + j] == suffix@[j],
        decreases 4 - i,
    {
        if s[n - 4 + i] != suffix[i] {
            assert(s@.skip(n - 4)[i as int] != suffix@[i as int]);
            return false;
        }
        i = i + 1;
    }
    assert(s@.skip(n - 4) =~= suffix@);
    true
}

/// Class and path reported for a process: its module name without `.exe` and the
/// module name itself when the name could be read, `"Unknown"` and no path otherwise.
pub fn process_identity(module_name: Option<String>) -> (r: (String, Option<String>))
    ensures
        match module_name {
            Some(name) => r.0@ == spec_strip_exe(name@) && r.1 == Some(name),
            None => r.0@ == "Unknown"@ && r.1 is None,
        },
{
    match module_name {
        Some(name) => {
            let chars = str_chars(name.as_str());
            let exe = str_chars(".exe");
            let upper = str_chars(".EXE");
            proof {
                reveal_strlit(".exe");
                reveal_strlit(".EXE");
            }
            let n = chars.len();
            let clean = if ends_with4(&chars, &exe) || ends_with4(&chars, &upper) {
                let mut v: Vec<char> = Vec::new();
                let mut i: usize = 0;
                while i < n - 4
                    invariant
                        n == chars.len(),
                        n >= 4,
                        i <= n - 4,
                        v@ == chars@.take(i as int),
                    decreases n - 4 - i,
                {
                    v.push(chars[i]);
                    assert(v@ =~= chars@.take(i + 1));
                    i = i + 1;
                }
                string_from_chars(v.as_slice())
            } else {
                string_from_chars(chars.as_slice())
            };
            (clean, Some(name))
        },
        None => (String::from_str("Unknown"), None),
    }
}

/// A window's text (its title, or its class name) as a Windows call wrote it into
/// `buf`, of which the call reported `len` UTF-16 units: empty when `len` is not
/// positive, else those units decoded as by `String::from_utf16_lossy`.
pub fn windows_window_text(buf: &[u16], len: i32) -> (r: String)
    requires
        len <= buf.len(),
    ensures
        r@ == (if len <= 0 {
            Seq::empty()
        } else {
            utf16_lossy(buf@.take(len as int))
        }),
{
    if len <= 0 {
        return String::new();
    }
    utf16_lossy_prefix(buf, len as usize)
}

/// The class reported for a process on Windows, from its module name.
pub open spec fn spec_windows_class(module_name: Option<String>) -> Seq<char> {
    match module_name {
        Some(name) => spec_strip_exe(name@),
        None => "Unknown"@,
    }
}

/// Whether a window with this class and name can be reported: a reported window
/// names its class or its title.
pub open spec fn names_window(class: Seq<char>, name: Seq<char>) -> bool {
    class.len() > 0 || name.len() > 0
}

/// Executable `names_window`.
fn names_window_of(class: &String, name: &String) -> (b: bool)
    ensures
        b == names_window(class@, name@),
{
    !class.as_str().is_empty() || !name.as_str().is_empty()
}

/// The record for a focused window on Windows; none when it would name neither a
/// class nor a title.
pub fn windows_active_window(window_name: String, process_id: u32, module_name: Option<String>) -> (r:
    Option<ActiveWindowInfo>)
    ensures
        r is None <==> !names_window(spec_windows_class(module_name), window_name@),
        r matches Some(info) ==> {
            &&& info.window_name == window_name
            &&& info.pid == Some(process_id)
            &&& info.window_class@ == spec_windows_class(module_name)
            &&& info.path == module_name
        },
{
    let (window_class, path) = process_identity(module_name);
    if !names_window_of(&window_class, &window_name) {
        return None;
    }
    Some(ActiveWindowInfo { window_class, window_name, path, pid: Some(process_id) })
}

// ---------------------------------------------------------------------------
// macOS
// ---------------------------------------------------------------------------

/// One entry of the on-screen window list, front to back: its layer (`None` when
/// absent, `Some(None)` when not an `i32`), its name and its owner's name.
pub struct WindowListEntry {
    pub layer: Option<Option<i32>>,
    pub name: Option<String>,
    pub owner: Option<String>,
}

/// The title an entry offers: its name when not empty, else its owner's name when
/// not empty; entries whose given layer is not 0 offer none.
pub open spec fn entry_title(e: WindowListEntry) -> Option<Seq<char>> {
    if e.layer matches Some(l) && l != Some(0i32) {
        None
    } else if e.name matches Some(n) && n@.len() > 0 {
        Some(e.name->0@)
    } else if e.owner matches Some(o) && o@.len() > 0 {
        Some(e.owner->0@)
    } else {
        None
    }
}

/// The title of the frontmost window: that of the first entry offering one.
pub open spec fn spec_frontmost_title(entries: Seq<WindowListEntry>) -> Option<Seq<char>>
    decreases entries.len(),
{
    if entries.len() == 0 {
        None
    } else if entry_title(entries[0]) is Some {
        entry_title(entries[0])
    } else {
        spec_frontmost_title(entries.drop_first())
    }
}

/// Executable `entry_title`.
fn entry_title_of(e: &WindowListEntry) -> (r: Option<String>)
    ensures
        match r {
            Some(t) => entry_title(*e) == Some(t@),
            None => entry_title(*e) is None,
        },
{
    match &e.layer {
        Some(l) => {
            let normal = match l {
                Some(v) => *v == 0,
                None => false,
            };
            if !normal {
                return None;
            }
        },
        None => {},
    }
    match &e.name {
        Some(n) => {
            if !n.as_str().is_empty() {
                return Some(n.clone());
            }
        },
        None => {},
    }
    match &e.owner {
        Some(o) => {
            if !o.as_str().is_empty() {
                return Some(o.clone());
            }
        },
        None => {},
    }
    None
}

/// An entry in the normal layer (or with no layer given) offers its name when
/// that is not empty, whatever its owner; otherwise its owner's name when that is
/// not empty; an entry in any other layer offers nothing.
pub proof fn entry_title_prefers_name(e: WindowListEntry)
    ensures
        (e.layer is None || e.layer == Some(Some(0i32))) && (e.name matches Some(n) && n@.len() > 0)
            ==> entry_title(e) == Some(e.name->0@),
        (e.layer is None || e.layer == Some(Some(0i32))) && !(e.name matches Some(n) && n@.len() > 0)
            && (e.owner matches Some(o) && o@.len() > 0) ==> entry_title(e) == Some(e.owner->0@),
        !(e.layer is None || e.layer == Some(Some(0i32))) ==> entry_title(e) is None,
        entry_title(e) matches Some(t) ==> t.len() > 0,
{
}

/// The frontmost title is the title offered by the first entry that offers one;
/// there is none when no entry offers a title.
pub proof fn frontmost_title_is_first_offered(entries: Seq<WindowListEntry>)
    ensures
        match spec_frontmost_title(entries) {
            Some(t) => exists|i: int|
                0 <= i < entries.len() && entry_title(#[trigger] entries[i]) == Some(t) && forall|j: int|
                    0 <= j < i ==> entry_title(#[trigger] entries[j]) is None,
            None => forall|i: int| 0 <= i < entries.len() ==> entry_title(#[trigger] entries[i]) is None,
        },
    decreases entries.len(),
{
    if entries.len() > 0 {
        let rest = entries.drop_first();
        frontmost_title_is_first_offered(rest);
        if entry_title(entries[0]) is Some {
            assert(0 <= 0 < entries.len() && entry_title(entries[0]) == spec_frontmost_title(entries));
        } else {
            match spec_frontmost_title(entries) {
                Some(t) => {
                    let k = choose|k: int|
                        0 <= k < rest.len() && entry_title(#[trigger] rest[k]) == Some(t) && forall|j: int|
                            0 <= j < k ==> entry_title(#[trigger] rest[j]) is None;
                    assert(entries[k + 1] == rest[k]);
                    assert forall|j: int| 0 <= j < k + 1 implies entry_title(#[trigger] entries[j]) is None by {
                        if j > 0 {
                            assert(entries[j] == rest[j - 1]);
                        }
                    }
                },
                None => {
                    assert forall|i: int| 0 <= i < entries.len() implies entry_title(#[trigger] entries[i]) is None by {
                        if i > 0 {
                            assert(entries[i] == rest[i - 1]);
                        }
                    }
                },
            }
        }
    }
}

/// Title of the frontmost window in an on-screen window list.
pub fn frontmost_window_title(entries: &Vec<WindowListEntry>) -> (r: Option<String>)
    ensures
        match r {
            Some(t) => spec_frontmost_title(entries@) == Some(t@),
            None => spec_frontmost_title(entries@) is None,
        },
{
    let n = entries.len();
    let mut i: usize = 0;
    assert(entries@.skip(0) =~= entries@);
    while i < n
        invariant
            i <= n,
            n == entries@.len(),
            spec_frontmost_title(entries@) == spec_frontmost_title(entries@.skip(i as int)),
        decreases n - i,
    {
        let t = entry_title_of(&entries[i]);
        assert(entries@.skip(i as int)[0] == entries@[i as int]);
        if t.is_some() {
            return t;
        }
        assert(entries@.skip(i as int).drop_first() =~= entries@.skip(i + 1));
        i = i + 1;
    }
    None
}

/// The class reported for the frontmost application on macOS: its localized name,
/// empty when absent.
pub open spec fn spec_mac_class(app_name: Option<String>) -> Seq<char> {
    match app_name {
        Some(n) => n@,
        None => Seq::empty(),
    }
}

/// The name reported for it: the frontmost window's title, else the class.
pub open spec fn spec_mac_name(app_name: Option<String>, window_title: Option<String>) -> Seq<char> {
    match window_title {
        Some(t) => t@,
        None => spec_mac_class(app_name),
    }
}

/// On macOS the frontmost window's title, when one is given, is the name
/// reported, whatever the application's name; with no title the application's
/// name stands in. The class is the application's name (empty when absent), and
/// a report is made exactly when the application's name or the title is not empty.
pub proof fn mac_report_names(app_name: Option<String>, window_title: Option<String>)
    ensures
        window_title matches Some(t) ==> spec_mac_name(app_name, window_title) == t@,
        window_title is None ==> spec_mac_name(app_name, window_title) == spec_mac_class(app_name),
        app_name matches Some(a) ==> spec_mac_class(app_name) == a@,
        app_name is None ==> spec_mac_class(app_name).len() == 0,
        names_window(spec_mac_class(app_name), spec_mac_name(app_name, window_title)) == ((
        app_name matches Some(a) && a@.len() > 0) || (window_title matches Some(t) && t@.len() > 0)),
{
}

/// The record for the frontmost application on macOS: its localized name as class
/// (empty when absent), its bundle identifier as path, the frontmost window's title
/// or else the class as name, and its process id as `u32`; none when that record
/// would name neither a class nor a title.
pub fn mac_active_window(
    app_name: Option<String>,
    bundle_id: Option<String>,
    pid: i32,
    window_title: Option<String>,
) -> (r: Option<ActiveWindowInfo>)
    ensures
        r is None <==> !names_window(spec_mac_class(app_name), spec_mac_name(app_name, window_title)),
        r matches Some(info) ==> {
            &&& info.window_class@ == spec_mac_class(app_name)
            &&& info.window_name@ == spec_mac_name(app_name, window_title)
            &&& info.path == bundle_id
            &&& info.pid == Some(pid as u32)
        },
{
    let window_class = match app_name {
        Some(n) => n,
        None => String::new(),
    };
    let window_name = match window_title {
        Some(t) => t,
        None => window_class.clone(),
    };
    if !names_window_of(&window_class, &window_name) {
        return None;
    }
    Some(ActiveWindowInfo { window_class, window_name, path: bundle_id, pid: Some(pid as u32) })
}

// ---------------------------------------------------------------------------
// Linux (X11)
// ---------------------------------------------------------------------------

/// `s` without trailing NUL characters.
pub open spec fn trim_end_nul(s: Seq<char>) -> Seq<char>
    decreases s.len(),
{
    if s.len() > 0 && s.last() == '\0' {
        trim_end_nul(s.drop_last())
    } else {
        s
    }
}

/// A window title read from an X11 text property: `None` for an empty property,
/// otherwise its bytes decoded as by `String::from_utf8_lossy`, without trailing NULs.
pub fn x11_title_from_property(value: &[u8]) -> (r: Option<String>)
    ensures
        match r {
            None => value.len() == 0,
            Some(t) => value.len() > 0 && t@ == trim_end_nul(spec_utf8_lossy(value@)),
        },
{
    if value.len() == 0 {
        return None;
    }
    let text = utf8_lossy(value);
    let chars = str_chars(text.as_str());
    let mut hi = chars.len();
    assert(chars@.take(hi as int) =~= chars@);
    while hi > 0 && chars[hi - 1] == '\0'
        invariant
            hi <= chars.len(),
            trim_end_nul(chars@) == trim_end_nul(chars@.take(hi as int)),
        decreases hi,
    {
        assert(chars@.take(hi as int).drop_last() =~= chars@.take(hi - 1));
        hi = hi - 1;
    }
    let mut v: Vec<char> = Vec::new();
    let mut i: usize = 0;
    while i < hi
        invariant
            hi <= chars.len(),
            i <= hi,
            v@ == chars@.take(i as int),
        decreases hi - i,
    {
        v.push(chars[i]);
        assert(v@ =~= chars@.take(i + 1));
        i = i + 1;
    }
    Some(string_from_chars(v.as_slice()))
}

/// `str::from_utf8`: the text of `bytes` when they are valid UTF-8, `None` otherwise.
#[verifier::external_body]
pub(crate) fn utf8_text(bytes: &[u8]) -> (r: Option<String>)
    ensures
        match r {
            Some(s) => valid_utf8(bytes@) && s@ == decode_utf8(bytes@),
            None => !valid_utf8(bytes@),
        },
{
    match std::str::from_utf8(bytes) {
        Ok(s) => Some(s.to_string()),
        Err(_) => None,
    }
}

/// The non-empty pieces of `s` between NUL characters, in order (what
/// `s.split('\0').filter(|p| !p.is_empty())` yields).
pub open spec fn nul_fields(s: Seq<char>) -> Seq<Seq<char>>
    decreases s.len(),
{
    if s.len() == 0 {
        Seq::empty()
    } else {
        let init = nul_fields(s.drop_last());
        let c = s.last();
        if c == '\0' {
            init
        } else if s.len() >= 2 && s[s.len() - 2] != '\0' {
            init.drop_last().push(init.last().push(c))
        } else {
            init.push(seq![c])
        }
    }
}

proof fn lemma_nul_fields_nonempty_tail(s: Seq<char>)
    requires
        s.len() > 0,
        s.last() != '\0',
    ensures
        nul_fields(s).len() > 0,
    decreases s.len(),
{
}

/// No piece between NULs is empty, and none holds a NUL.
pub proof fn nul_fields_are_nonempty(s: Seq<char>)
    ensures
        forall|i: int|
            0 <= i < nul_fields(s).len() ==> #[trigger] nul_fields(s)[i].len() > 0 && !nul_fields(
                s,
            )[i].contains('\0'),
    decreases s.len(),
{
    if s.len() > 0 {
        let init = nul_fields(s.drop_last());
        let c = s.last();
        nul_fields_are_nonempty(s.drop_last());
        let f = nul_fields(s);
        if c == '\0' {
        } else if s.len() >= 2 && s[s.len() - 2] != '\0' {
            assert(s.drop_last().last() == s[s.len() - 2]);
            lemma_nul_fields_nonempty_tail(s.drop_last());
            assert forall|i: int| 0 <= i < f.len() implies #[trigger] f[i].len() > 0 && !f[i].contains(
                '\0',
            ) by {
                if i < f.len() - 1 {
                    assert(f[i] == init[i]);
                } else {
                    let last = init.last();
                    assert(init[init.len() - 1] == last);
                    assert(f[i] == last.push(c));
                    if last.push(c).contains('\0') {
                        let k = choose|k: int| 0 <= k < last.push(c).len() && last.push(c)[k] == '\0';
                        assert(last.push(c)[k] == last[k]);
                    }
                }
            }
        } else {
            assert forall|i: int| 0 <= i < f.len() implies #[trigger] f[i].len() > 0 && !f[i].contains(
                '\0',
            ) by {
                if i < f.len() - 1 {
                    assert(f[i] == init[i]);
                } else {
                    assert(f[i] == seq![c]);
                    if seq![c].contains('\0') {
                        let k = choose|k: int| 0 <= k < 1 && seq![c][k] == '\0';
                    }
                }
            }
        }
    }
}

/// A class read from `WM_CLASS` is never empty, so an X11 report of the active
/// window always names its class: the one read, or "Unknown".
pub proof fn x11_class_is_never_empty(value: Seq<u8>)
    ensures
        spec_wm_class(value) matches Some(c) ==> c.len() > 0,
{
    if valid_utf8(value) {
        nul_fields_are_nonempty(decode_utf8(value));
    }
}

/// The class a `WM_CLASS` value names: it holds the instance and the class name,
/// each ended by a NUL; the class (second piece) is taken, else the instance; `None`
/// when the value is not UTF-8 or holds no piece.
pub open spec fn spec_wm_class(value: Seq<u8>) -> Option<Seq<char>> {
    if !valid_utf8(value) {
        None
    } else {
        let parts = nul_fields(decode_utf8(value));
        if parts.len() >= 2 {
            Some(parts[1])
        } else if parts.len() == 1 {
            Some(parts[0])
        } else {
            None
        }
    }
}

/// Reads the window class from a `WM_CLASS` property value; an empty value gives `None`.
pub fn x11_wm_class(value: &[u8]) -> (r: Option<String>)
    ensures
        match r {
            Some(c) => value.len() > 0 && spec_wm_class(value@) == Some(c@),
            None => value.len() == 0 || spec_wm_class(value@) is None,
        },
{
    if value.len() == 0 {
        return None;
    }
    let text = match utf8_text(value) {
        Some(t) => t,
        None => return None,
    };
    let chars = str_chars(text.as_str());
    let n = chars.len();
    let mut fields: Vec<Vec<char>> = Vec::new();
    let mut i: usize = 0;
    while i < n
        invariant
            i <= n,
            n == chars@.len(),
            fields@.map_values(|f: Vec<char>| f@) == nul_fields(chars@.take(i as int)),
        decreases n - i,
    {
        let c = chars[i];
        let ghost prefix = chars@.take(i as int);
        let ghost next = chars@.take(i + 1);
        let ghost before = fields@.map_values(|f: Vec<char>| f@);
        assert(next.drop_last() =~= prefix);
        assert(next.last() == c);
        if c != '\0' {
            if i > 0 && chars[i - 1] != '\0' {
                assert(next[next.len() - 2] == chars@[i - 1]);
                proof {
                    lemma_nul_fields_nonempty_tail(prefix);
                }
                let mut last = fields.pop().unwrap();
                last.push(c);
                fields.push(last);
                assert(fields@.map_values(|f: Vec<char>| f@) =~= before.drop_last().push(
                    before.last().push(c),
                ));
            } else {
                let mut one: Vec<char> = Vec::new();
                one.push(c);
                fields.push(one);
                assert(fields@.map_values(|f: Vec<char>| f@) =~= before.push(seq![c]));
            }
        }
        i = i + 1;
    }
    assert(chars@.take(n as int) =~= chars@);
    if fields.len() >= 2 {
        Some(string_from_chars(fields[1].as_slice()))
    } else if fields.len() == 1 {
        Some(string_from_chars(fields[0].as_slice()))
    } else {
        None
    }
}

/// The class reported for a focused X11 window: the one read, else `"Unknown"`.
pub open spec fn spec_x11_class(window_class: Option<String>) -> Seq<char> {
    match window_class {
        Some(c) => c@,
        None => "Unknown"@,
    }
}

/// The record for a focused X11 window: class `"Unknown"` when none was read, no
/// path; none when it would name neither a class nor a title.
pub fn x11_active_window(window_name: String, window_class: Option<String>, pid: Option<u32>) -> (r:
    Option<ActiveWindowInfo>)
    ensures
        r is None <==> !names_window(spec_x11_class(window_class), window_name@),
        window_class is None ==> r is Some,
        r matches Some(info) ==> {
            &&& info.window_name == window_name
            &&& info.window_class@ == spec_x11_class(window_class)
            &&& info.path is None
            &&& info.pid == pid
        },
{
    proof {
        reveal_strlit("Unknown");
    }
    let window_class = match window_class {
        Some(c) => c,
        None => String::from_str("Unknown"),
    };
    if !names_window_of(&window_class, &window_name) {
        return None;
    }
    Some(ActiveWindowInfo { window_class, window_name, path: None, pid })
}

/// The window an X11 `_NET_ACTIVE_WINDOW` property names: its first 32-bit value
/// when the property has format 32 and is not empty and that value is not 0.
pub fn x11_active_window_id(format: u8, first_value: Option<u32>, value_len: usize) -> (r: Option<
    u32,
>)
    ensures
        r == (if format != 32 || value_len == 0 {
            None
        } else {
            match first_value {
                Some(w) => if w == 0 {
                    None
                } else {
                    Some(w)
                },
                None => None,
            }
        }),
{
    if format != 32 || value_len == 0 {
        return None;
    }
    match first_value {
        Some(w) => if w == 0 {
            None
        } else {
            Some(w)
        },
        None => None,
    }
}

/// The class of a Windows process is its module name without a final `.exe` or
/// `.EXE`: the name is the class followed by that suffix when it has one, and the
/// class itself otherwise.
pub proof fn class_is_module_without_exe(name: Seq<char>)
    ensures
        (name.len() >= 4 && (name.skip(name.len() - 4) == ".exe"@ || name.skip(name.len() - 4)
            == ".EXE"@)) ==> spec_strip_exe(name) + name.skip(name.len() - 4) == name
            && spec_strip_exe(name).len() == name.len() - 4,
        !(name.len() >= 4 && (name.skip(name.len() - 4) == ".exe"@ || name.skip(name.len() - 4)
            == ".EXE"@)) ==> spec_strip_exe(name) == name,
{
    if name.len() >= 4 {
        assert(name.take(name.len() - 4) + name.skip(name.len() - 4) =~= name);
    }
}

/// A title read from an X11 property is the decoded text without its trailing
/// NULs: the title followed by some NULs gives back the text, and the title does
/// not end in a NUL.
pub proof fn x11_title_drops_only_trailing_nuls(s: Seq<char>)
    ensures
        trim_end_nul(s).len() <= s.len(),
        s.take(trim_end_nul(s).len() as int) == trim_end_nul(s),
        forall|i: int| trim_end_nul(s).len() <= i < s.len() ==> s[i] == '\0',
        trim_end_nul(s).len() > 0 ==> trim_end_nul(s).last() != '\0',
    decreases s.len(),
{
    if s.len() > 0 && s.last() == '\0' {
        let p = s.drop_last();
        x11_title_drops_only_trailing_nuls(p);
        let t = trim_end_nul(p);
        assert(s.take(t.len() as int) =~= p.take(t.len() as int));
        assert forall|i: int| t.len() <= i < s.len() implies s[i] == '\0' by {
            if i < p.len() {
                assert(s[i] == p[i]);
            }
        }
    } else {
        assert(s.take(s.len() as int) =~= s);
    }
}

proof fn lemma_nul_fields_push_field(p: Seq<char>, x: Seq<char>)
    requires
        p.len() == 0 || p.last() == '\0',
        x.len() > 0,
        !x.contains('\0'),
    ensures
        nul_fields(p + x) == nul_fields(p).push(x),
    decreases x.len(),
{
    let s = p + x;
    assert(s.last() == x.last());
    assert(x.last() != '\0') by {
        assert(x[x.len() - 1] == x.last());
    }
    assert(s.drop_last() =~= p + x.drop_last());
    if x.len() == 1 {
        assert(p + x.drop_last() =~= p);
        if s.len() >= 2 {
            assert(s[s.len() - 2] == p.last());
        }
        assert(x =~= seq![x.last()]);
    } else {
        let xi = x.drop_last();
        assert(!xi.contains('\0')) by {
            if xi.contains('\0') {
                let k = choose|k: int| 0 <= k < xi.len() && xi[k] == '\0';
                assert(x[k] == '\0');
            }
        }
        lemma_nul_fields_push_field(p, xi);
        assert(s[s.len() - 2] == x[x.len() - 2]);
        assert(x[x.len() - 2] != '\0');
        let init = nul_fields(p).push(xi);
        assert(xi.push(x.last()) =~= x);
        assert(init.drop_last().push(init.last().push(x.last())) =~= nul_fields(p).push(x));
    }
}

proof fn lemma_nul_fields_nul(q: Seq<char>)
    ensures
        nul_fields(q + seq!['\0']) == nul_fields(q),
{
    assert((q + seq!['\0']).drop_last() =~= q);
}

/// A `WM_CLASS` value that holds the instance name and the class name, each ended
/// by a NUL, names the class; one that holds only the instance name names that.
pub proof fn wm_class_is_second_name(instance: Seq<char>, class: Seq<char>)
    requires
        instance.len() > 0,
        class.len() > 0,
        !instance.contains('\0'),
        !class.contains('\0'),
    ensures
        spec_wm_class(encode_utf8(instance + seq!['\0'] + class + seq!['\0'])) == Some(class),
        spec_wm_class(encode_utf8(instance + seq!['\0'])) == Some(instance),
{
    let e = Seq::<char>::empty();
    let one = instance + seq!['\0'];
    let two = one + class + seq!['\0'];
    encode_utf8_valid_utf8(one);
    encode_utf8_decode_utf8(one);
    encode_utf8_valid_utf8(two);
    encode_utf8_decode_utf8(two);
    assert(e + instance =~= instance);
    lemma_nul_fields_push_field(e, instance);
    lemma_nul_fields_nul(instance);
    assert(one.last() == '\0');
    lemma_nul_fields_push_field(one, class);
    lemma_nul_fields_nul(one + class);
    let f = nul_fields(two);
    assert(f == nul_fields(e).push(instance).push(class));
    assert(f.len() == 2);
    assert(f[1] == class);
    assert(nul_fields(one) == nul_fields(e).push(instance));
}

/// When no class could be read (no module name on Windows, no `WM_CLASS` on
/// X11) the class reported is `Unknown`, so such a window is always reported;
/// with a module name the Windows class is that name without `.exe`.
pub proof fn unread_class_is_unknown(window_name: Seq<char>, module_name: Option<String>)
    ensures
        spec_windows_class(None) == "Unknown"@,
        spec_x11_class(None) == "Unknown"@,
        names_window(spec_windows_class(None), window_name),
        names_window(spec_x11_class(None), window_name),
        module_name matches Some(n) ==> spec_windows_class(module_name) == spec_strip_exe(n@),
{
    reveal_strlit("Unknown");
}

} // verus!
