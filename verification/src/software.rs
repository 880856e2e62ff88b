//! Desktop, window manager, shell and terminal names and their versions.
use vstd::prelude::*;

use crate::strings::{
    chars_of, contains, contains_seq, eq_ignore_case, eq_ignore_case_str, eq_str, find_char,
    index_of, lower_chars, lower_seq, opt_view, push_str, seqs, slice_of, string_of, strip_end,
    strip_end_chars, upper, words, words_of,
};

verus! {

/// An ASCII digit.
pub open spec fn is_digit(c: char) -> bool {
    '0' <= c <= '9'
}

/// Index of the first ASCII digit of `s`.
pub open spec fn first_digit(s: Seq<char>) -> Option<nat>
    decreases s.len(),
{
    if s.len() == 0 {
        None
    } else if is_digit(s[0]) {
        Some(0)
    } else {
        match first_digit(s.drop_first()) {
            Some(i) => Some(i + 1),
            None => None,
        }
    }
}

/// The longest prefix of `s` made of ASCII digits and dots.
pub open spec fn version_run(s: Seq<char>) -> Seq<char>
    decreases s.len(),
{
    if s.len() > 0 && (is_digit(s[0]) || s[0] == '.') {
        seq![s[0]] + version_run(s.drop_first())
    } else {
        Seq::<char>::empty()
    }
}

/// The version in one token: from its first digit, the run of digits and
/// dots, without trailing dots; `None` when the token has no digit.
pub open spec fn token_version(t: Seq<char>) -> Option<Seq<char>> {
    match first_digit(t) {
        Some(j) => Some(strip_end(version_run(t.skip(j as int)), '.')),
        None => None,
    }
}

/// The version of the first token that has one.
pub open spec fn first_version(tokens: Seq<Seq<char>>) -> Option<Seq<char>>
    decreases tokens.len(),
{
    if tokens.len() == 0 {
        None
    } else {
        match token_version(tokens[0]) {
            Some(v) => Some(v),
            None => first_version(tokens.drop_first()),
        }
    }
}

pub proof fn lemma_first_digit(s: Seq<char>, i: int)
    requires
        0 <= i <= s.len(),
        forall|j: int| 0 <= j < i ==> !is_digit(#[trigger] s[j]),
    ensures
        i < s.len() && is_digit(s[i]) ==> first_digit(s) == Some(i as nat),
        i == s.len() ==> first_digit(s) is None,
    decreases i,
{
    if i > 0 {
        lemma_first_digit(s.drop_first(), i - 1);
    }
}

pub proof fn lemma_version_run(s: Seq<char>, k: int)
    requires
        0 <= k <= s.len(),
        forall|j: int| 0 <= j < k ==> is_digit(#[trigger] s[j]) || s[j] == '.',
        k == s.len() || !(is_digit(s[k]) || s[k] == '.'),
    ensures
        version_run(s) == s.take(k),
    decreases k,
{
    if k > 0 {
        lemma_version_run(s.drop_first(), k - 1);
        assert(seq![s[0]] + s.drop_first().take(k - 1) =~= s.take(k));
    } else {
        assert(s.take(0) =~= Seq::<char>::empty());
    }
}

/// The version in one token.
fn token_version_exec(t: &Vec<char>) -> (r: Option<Vec<char>>)
    ensures
        match token_version(t@) {
            Some(v) => r is Some && r->0@ == v,
            None => r is None,
        },
{
    let mut i: usize = 0;
    while i < t.len() && !('0' <= t[i] && t[i] <= '9')
        invariant
            i <= t.len(),
            forall|j: int| 0 <= j < i ==> !is_digit(#[trigger] t@[j]),
        decreases t.len() - i,
    {
        i += 1;
    }
    proof {
        lemma_first_digit(t@, i as int);
    }
    if i == t.len() {
        return None;
    }
    let mut k: usize = i;
    while k < t.len() && (('0' <= t[k] && t[k] <= '9') || t[k] == '.')
        invariant
            i <= k <= t.len(),
            forall|j: int| i <= j < k ==> is_digit(#[trigger] t@[j]) || t@[j] == '.',
        decreases t.len() - k,
    {
        k += 1;
    }
    let run = slice_of(t, i, k);
    proof {
        let s = t@.skip(i as int);
        assert forall|j: int| 0 <= j < k - i implies is_digit(#[trigger] s[j]) || s[j] == '.' by {
            assert(s[j] == t@[i + j]);
        }
        lemma_version_run(s, k - i);
        assert(s.take(k - i) =~= run@);
    }
    Some(strip_end_chars(&run, '.'))
}

/// The first version number in `value`: in the first whitespace-separated
/// token that holds a digit, the digits and dots from that digit on, with
/// trailing dots removed (`"bash 5.2.15(1)-release"` gives `5.2.15`).
pub fn extract_version_token(value: &str) -> (r: Option<String>)
    ensures
        opt_view(r) == first_version(words(value@)),
{
    let v = chars_of(value);
    let tokens = words_of(&v);
    let ghost ts = seqs(tokens@);
    assert(ts.skip(0) == ts);
    let mut i: usize = 0;
    while i < tokens.len()
        invariant
            i <= tokens.len(),
            ts == seqs(tokens@),
            ts == words(value@),
            first_version(ts) == first_version(ts.skip(i as int)),
        decreases tokens.len() - i,
    {
        let ghost rest = ts.skip(i as int);
        assert(rest[0] == tokens@[i as int]@);
        assert(rest.drop_first() == ts.skip(i + 1));
        match token_version_exec(&tokens[i]) {
            Some(found) => {
                return Some(string_of(&found));
            },
            None => {},
        }
        i += 1;
    }
    assert(ts.skip(i as int).len() == 0);
    None
}

/// Whether the token `t` holds an ASCII digit.
pub open spec fn has_digit(t: Seq<char>) -> bool {
    exists|j: int| 0 <= j < t.len() && is_digit(#[trigger] t[j])
}

proof fn lemma_first_digit_found(t: Seq<char>)
    ensures
        first_digit(t) is Some <==> has_digit(t),
        first_digit(t) matches Some(j) ==> {
            &&& j < t.len()
            &&& is_digit(t[j as int])
            &&& forall|k: int| 0 <= k < j ==> !is_digit(#[trigger] t[k])
        },
    decreases t.len(),
{
    if t.len() > 0 {
        let rest = t.drop_first();
        lemma_first_digit_found(rest);
        if has_digit(t) && !is_digit(t[0]) {
            let j = choose|j: int| 0 <= j < t.len() && is_digit(#[trigger] t[j]);
            assert(rest[j - 1] == t[j]);
        }
        if has_digit(rest) {
            let j = choose|j: int| 0 <= j < rest.len() && is_digit(#[trigger] rest[j]);
            assert(t[j + 1] == rest[j]);
        }
        if let Some(j) = first_digit(t) {
            if j > 0 {
                assert forall|k: int| 0 <= k < j implies !is_digit(#[trigger] t[k]) by {
                    if k > 0 {
                        assert(t[k] == rest[k - 1]);
                    }
                }
            }
        }
    }
}

proof fn lemma_version_run_shape(s: Seq<char>)
    ensures
        version_run(s).len() <= s.len(),
        version_run(s) == s.take(version_run(s).len() as int),
        forall|k: int| 0 <= k < version_run(s).len() ==> is_digit(#[trigger] version_run(s)[k]) || version_run(s)[k] == '.',
        s.len() > 0 && is_digit(s[0]) ==> version_run(s).len() > 0,
    decreases s.len(),
{
    if s.len() > 0 && (is_digit(s[0]) || s[0] == '.') {
        lemma_version_run_shape(s.drop_first());
        let r = version_run(s);
        assert(r == seq![s[0]] + version_run(s.drop_first()));
        assert(r =~= s.take(r.len() as int));
        assert forall|k: int| 0 <= k < r.len() implies is_digit(#[trigger] r[k]) || r[k] == '.' by {
            if k > 0 {
                assert(r[k] == version_run(s.drop_first())[k - 1]);
            }
        }
    } else {
        assert(s.take(0) =~= Seq::<char>::empty());
    }
}

proof fn lemma_strip_end_shape(s: Seq<char>, c: char)
    ensures
        strip_end(s, c).len() <= s.len(),
        strip_end(s, c) == s.take(strip_end(s, c).len() as int),
        strip_end(s, c).len() > 0 ==> strip_end(s, c).last() != c,
        s.len() > 0 && s[0] != c ==> strip_end(s, c).len() > 0,
    decreases s.len(),
{
    if s.len() > 0 && s.last() == c {
        lemma_strip_end_shape(s.drop_last(), c);
        let r = strip_end(s, c);
        assert(r =~= s.take(r.len() as int));
    } else {
        assert(s =~= s.take(s.len() as int));
    }
}

/// The version found in one token: there is one exactly when the token
/// holds a digit, and it is the stretch of the token that starts at its
/// first digit, made of digits and dots only, not ending in a dot.
pub proof fn lemma_token_version_shape(t: Seq<char>)
    ensures
        token_version(t) is Some <==> has_digit(t),
        forall|v: Seq<char>|
            token_version(t) == Some(v) ==> exists|j: int|
                #![trigger t.subrange(j, j + v.len())]
                0 <= j && j + v.len() <= t.len() && t.subrange(j, j + v.len()) == v && (forall|k: int|
                    0 <= k < j ==> !is_digit(#[trigger] t[k])),
        token_version(t) matches Some(v) ==> {
            &&& v.len() > 0
            &&& is_digit(v[0])
            &&& v.last() != '.'
            &&& forall|k: int| 0 <= k < v.len() ==> is_digit(#[trigger] v[k]) || v[k] == '.'
        },
{
    lemma_first_digit_found(t);
    if let Some(j) = first_digit(t) {
        let s = t.skip(j as int);
        let run = version_run(s);
        lemma_version_run_shape(s);
        lemma_strip_end_shape(run, '.');
        let v = strip_end(run, '.');
        assert(s[0] == t[j as int]);
        assert(run[0] == s[0]);
        assert(v[0] == run[0]);
        assert forall|k: int| 0 <= k < v.len() implies is_digit(#[trigger] v[k]) || v[k] == '.' by {
            assert(v[k] == run[k]);
        }
        let jj: int = j as int;
        assert(jj + v.len() <= t.len());
        assert forall|m: int| 0 <= m < v.len() implies t.subrange(jj, jj + v.len())[m] == v[m] by {
            assert(v[m] == run[m]);
            assert(run[m] == s[m]);
        }
        assert(t.subrange(jj, jj + v.len()) =~= v);
        assert(forall|k: int| 0 <= k < jj ==> !is_digit(#[trigger] t[k]));
        assert(token_version(t) == Some(v));
        assert(t.subrange(jj, jj + v.len()) == v);
    }
}

/// The version number of a text comes from its first whitespace-separated
/// token that holds a digit: when token `i` is the first such, the version
/// is that token's; when no token holds a digit, there is none.
pub proof fn lemma_version_from_first_digit_token(value: Seq<char>, i: int)
    requires
        0 <= i < words(value).len(),
        has_digit(words(value)[i]),
        forall|j: int| 0 <= j < i ==> !has_digit(#[trigger] words(value)[j]),
    ensures
        first_version(words(value)) == token_version(words(value)[i]),
{
    lemma_first_version_at(words(value), i);
}

/// A text none of whose tokens holds a digit has no version number.
pub proof fn lemma_no_digit_no_version(value: Seq<char>)
    requires
        forall|j: int| 0 <= j < words(value).len() ==> !has_digit(#[trigger] words(value)[j]),
    ensures
        first_version(words(value)) is None,
{
    lemma_first_version_none(words(value));
}

proof fn lemma_first_version_at(ts: Seq<Seq<char>>, i: int)
    requires
        0 <= i < ts.len(),
        has_digit(ts[i]),
        forall|j: int| 0 <= j < i ==> !has_digit(#[trigger] ts[j]),
    ensures
        first_version(ts) == token_version(ts[i]),
    decreases i,
{
    lemma_token_version_shape(ts[0]);
    if i > 0 {
        let rest = ts.drop_first();
        assert forall|j: int| 0 <= j < i - 1 implies !has_digit(#[trigger] rest[j]) by {
            assert(rest[j] == ts[j + 1]);
        }
        assert(!has_digit(ts[0]));
        lemma_first_version_at(rest, i - 1);
    }
}

proof fn lemma_first_version_none(ts: Seq<Seq<char>>)
    requires
        forall|j: int| 0 <= j < ts.len() ==> !has_digit(#[trigger] ts[j]),
    ensures
        first_version(ts) is None,
    decreases ts.len(),
{
    if ts.len() > 0 {
        lemma_token_version_shape(ts[0]);
        let rest = ts.drop_first();
        assert forall|j: int| 0 <= j < rest.len() implies !has_digit(#[trigger] rest[j]) by {
            assert(rest[j] == ts[j + 1]);
        }
        lemma_first_version_none(rest);
    }
}

/// Display names of known terminal emulators, by lower-case process name.
pub open spec fn known_terminal(lower: Seq<char>) -> Option<Seq<char>> {
    if lower == "ptyxis"@ {
        Some("Ptyxis"@)
    } else if lower == "gnome-terminal"@ || lower == "gnome-terminal-server"@ {
        Some("GNOME Terminal"@)
    } else if lower == "kgx"@ {
        Some("GNOME Console"@)
    } else if lower == "konsole"@ {
        Some("Konsole"@)
    } else if lower == "alacritty"@ {
        Some("Alacritty"@)
    } else if lower == "kitty"@ {
        Some("Kitty"@)
    } else if lower == "wezterm"@ || lower == "wezterm-gui"@ {
        Some("WezTerm"@)
    } else if lower == "foot"@ || lower == "footclient"@ {
        Some("Foot"@)
    } else if lower == "tilix"@ {
        Some("Tilix"@)
    } else if lower == "terminator"@ {
        Some("Terminator"@)
    } else if lower == "xfce4-terminal"@ {
        Some("XFCE Terminal"@)
    } else if lower == "mate-terminal"@ {
        Some("MATE Terminal"@)
    } else if lower == "lxterminal"@ {
        Some("LXTerminal"@)
    } else if lower == "qterminal"@ {
        Some("QTerminal"@)
    } else if lower == "xterm"@ {
        Some("XTerm"@)
    } else if lower == "st"@ {
        Some("st"@)
    } else if lower == "urxvt"@ || lower == "rxvt"@ {
        Some("rxvt"@)
    } else {
        None
    }
}

/// Looks `lower` up in [`known_terminal`].
fn known_terminal_exec(lower: &Vec<char>) -> (r: Option<&'static str>)
    ensures
        match known_terminal(lower@) {
            Some(d) => r is Some && r->0@ == d,
            None => r is None,
        },
{
    if eq_str(lower, "ptyxis") {
        Some("Ptyxis")
    } else if eq_str(lower, "gnome-terminal") || eq_str(lower, "gnome-terminal-server") {
        Some("GNOME Terminal")
    } else if eq_str(lower, "kgx") {
        Some("GNOME Console")
    } else if eq_str(lower, "konsole") {
        Some("Konsole")
    } else if eq_str(lower, "alacritty") {
        Some("Alacritty")
    } else if eq_str(lower, "kitty") {
        Some("Kitty")
    } else if eq_str(lower, "wezterm") || eq_str(lower, "wezterm-gui") {
        Some("WezTerm")
    } else if eq_str(lower, "foot") || eq_str(lower, "footclient") {
        Some("Foot")
    } else if eq_str(lower, "tilix") {
        Some("Tilix")
    } else if eq_str(lower, "terminator") {
        Some("Terminator")
    } else if eq_str(lower, "xfce4-terminal") {
        Some("XFCE Terminal")
    } else if eq_str(lower, "mate-terminal") {
        Some("MATE Terminal")
    } else if eq_str(lower, "lxterminal") {
        Some("LXTerminal")
    } else if eq_str(lower, "qterminal") {
        Some("QTerminal")
    } else if eq_str(lower, "xterm") {
        Some("XTerm")
    } else if eq_str(lower, "st") {
        Some("st")
    } else if eq_str(lower, "urxvt") || eq_str(lower, "rxvt") {
        Some("rxvt")
    } else {
        None
    }
}

/// Window managers, by lower-case process name.
pub open spec fn known_wm(lower: Seq<char>) -> Option<Seq<char>> {
    if lower == "kwin_wayland"@ || lower == "kwin_x11"@ || lower == "kwin"@ {
        Some("KWin"@)
    } else if lower == "mutter"@ || lower == "gnome-shell"@ {
        Some("Mutter"@)
    } else if lower == "sway"@ {
        Some("Sway"@)
    } else if lower == "hyprland"@ {
        Some("Hyprland"@)
    } else if lower == "wayfire"@ {
        Some("Wayfire"@)
    } else if lower == "river"@ {
        Some("River"@)
    } else if lower == "labwc"@ {
        Some("LabWC"@)
    } else if lower == "openbox"@ {
        Some("Openbox"@)
    } else if lower == "i3"@ {
        Some("i3"@)
    } else if lower == "bspwm"@ {
        Some("bspwm"@)
    } else if lower == "awesome"@ {
        Some("Awesome"@)
    } else if lower == "dwm"@ {
        Some("dwm"@)
    } else {
        None
    }
}

/// Looks `lower` up in [`known_wm`].
fn known_wm_exec(lower: &Vec<char>) -> (r: Option<&'static str>)
    ensures
        match known_wm(lower@) {
            Some(d) => r is Some && r->0@ == d,
            None => r is None,
        },
{
    if eq_str(lower, "kwin_wayland") || eq_str(lower, "kwin_x11") || eq_str(lower, "kwin") {
        Some("KWin")
    } else if eq_str(lower, "mutter") || eq_str(lower, "gnome-shell") {
        Some("Mutter")
    } else if eq_str(lower, "sway") {
        Some("Sway")
    } else if eq_str(lower, "hyprland") {
        Some("Hyprland")
    } else if eq_str(lower, "wayfire") {
        Some("Wayfire")
    } else if eq_str(lower, "river") {
        Some("River")
    } else if eq_str(lower, "labwc") {
        Some("LabWC")
    } else if eq_str(lower, "openbox") {
        Some("Openbox")
    } else if eq_str(lower, "i3") {
        Some("i3")
    } else if eq_str(lower, "bspwm") {
        Some("bspwm")
    } else if eq_str(lower, "awesome") {
        Some("Awesome")
    } else if eq_str(lower, "dwm") {
        Some("dwm")
    } else {
        None
    }
}

/// The environment variable that holds a shell's version, by shell name.
pub open spec fn shell_version_var_spec(name: Seq<char>) -> Option<Seq<char>> {
    if name == "bash"@ {
        Some("BASH_VERSION"@)
    } else if name == "zsh"@ {
        Some("ZSH_VERSION"@)
    } else if name == "fish"@ {
        Some("FISH_VERSION"@)
    } else if name == "nu"@ || name == "nushell"@ {
        Some("NU_VERSION"@)
    } else {
        None
    }
}

/// Looks `name` up in [`shell_version_var_spec`].
fn shell_version_var_spec_exec(name: &Vec<char>) -> (r: Option<&'static str>)
    ensures
        match shell_version_var_spec(name@) {
            Some(d) => r is Some && r->0@ == d,
            None => r is None,
        },
{
    if eq_str(name, "bash") {
        Some("BASH_VERSION")
    } else if eq_str(name, "zsh") {
        Some("ZSH_VERSION")
    } else if eq_str(name, "fish") {
        Some("FISH_VERSION")
    } else if eq_str(name, "nu") || eq_str(name, "nushell") {
        Some("NU_VERSION")
    } else {
        None
    }
}


/// The display name of a known terminal emulator process (case-insensitive).
pub fn known_terminal_name(name: &str) -> (r: Option<String>)
    ensures
        opt_view(r) == known_terminal(lower_seq(name@)),
{
    let lower = lower_chars(&chars_of(name));
    match known_terminal_exec(&lower) {
        Some(d) => Some(string_of(&chars_of(d))),
        None => None,
    }
}

/// A terminal name for display: the known display name, or the name with
/// its first character in ASCII upper case.
pub open spec fn normalized_terminal(name: Seq<char>) -> Seq<char> {
    match known_terminal(lower_seq(name)) {
        Some(d) => d,
        None => if name.len() == 0 {
            name
        } else {
            seq![upper(name[0])] + name.drop_first()
        },
    }
}

/// `char::to_ascii_uppercase`.
fn upper_char(c: char) -> (r: char)
    ensures
        r == upper(c),
{
    if 'a' <= c && c <= 'z' {
        let n: u8 = (c as u32 - 32) as u8;
        assert(n == c as u32 - 32);
        n as char
    } else {
        c
    }
}

/// A terminal name for display.
pub fn normalize_terminal_name(name: &str) -> (r: String)
    ensures
        r@ == normalized_terminal(name@),
{
    let v = chars_of(name);
    let lower = lower_chars(&v);
    match known_terminal_exec(&lower) {
        Some(d) => string_of(&chars_of(d)),
        None => {
            if v.len() == 0 {
                return string_of(&v);
            }
            let mut out: Vec<char> = Vec::new();
            out.push(upper_char(v[0]));
            let rest = slice_of(&v, 1, v.len());
            let mut j: usize = 0;
            while j < rest.len()
                invariant
                    j <= rest.len(),
                    out@ == seq![upper(v@[0])] + rest@.take(j as int),
                decreases rest.len() - j,
            {
                out.push(rest[j]);
                j += 1;
                assert(rest@.take(j as int) == rest@.take(j - 1).push(rest@[j - 1]));
            }
            assert(rest@.take(rest.len() as int) == rest@);
            assert(rest@ == v@.drop_first());
            string_of(&out)
        },
    }
}

/// `name` followed by a space and the version found in `raw`, if any.
pub open spec fn with_version(name: Seq<char>, raw: Option<Seq<char>>) -> Seq<char> {
    match raw {
        Some(r) => match first_version(words(r)) {
            Some(v) => name + " "@ + v,
            None => name,
        },
        None => name,
    }
}

/// Appends a space and the version found in `raw`, if any.
fn append_version(out: &mut Vec<char>, raw: Option<&str>)
    ensures
        final(out)@ == with_version(old(out)@, match raw {
            Some(r) => Some(r@),
            None => None,
        }),
{
    match raw {
        Some(r) => match extract_version_token(r) {
            Some(v) => {
                push_str(out, " ");
                push_str(out, v.as_str());
            },
            None => {},
        },
        None => {},
    }
}

/// The terminal line from a terminal program name and the raw text of its
/// version variable (`TERM_PROGRAM` / `TERM_PROGRAM_VERSION`, or
/// `LC_TERMINAL` / `LC_TERMINAL_VERSION`).
pub fn terminal_label(term: &str, version_raw: Option<&str>) -> (r: String)
    ensures
        r@ == with_version(normalized_terminal(term@), match version_raw {
            Some(v) => Some(v@),
            None => None,
        }),
{
    let name = normalize_terminal_name(term);
    let mut out = chars_of(name.as_str());
    append_version(&mut out, version_raw);
    string_of(&out)
}

/// `name` followed by a space and `version`, when there is one.
pub open spec fn joined_version(name: Seq<char>, version: Option<Seq<char>>) -> Seq<char> {
    match version {
        Some(v) => name + " "@ + v,
        None => name,
    }
}

/// The terminal line from the display name of a terminal found among the
/// process's ancestors and the version its program reported, if any.
pub fn terminal_with_version(display: &str, version: Option<&str>) -> (r: String)
    ensures
        r@ == joined_version(display@, match version {
            Some(v) => Some(v@),
            None => None,
        }),
{
    let mut out = chars_of(display);
    match version {
        Some(v) => {
            push_str(&mut out, " ");
            push_str(&mut out, v);
        },
        None => {},
    }
    string_of(&out)
}

/// Index and display name of the first known terminal among process names
/// (a process and its ancestors, nearest first).
pub open spec fn first_terminal(names: Seq<Seq<char>>) -> Option<(nat, Seq<char>)>
    decreases names.len(),
{
    if names.len() == 0 {
        None
    } else {
        match known_terminal(lower_seq(names[0])) {
            Some(d) => Some((0, d)),
            None => match first_terminal(names.drop_first()) {
                Some((i, d)) => Some((i + 1, d)),
                None => None,
            },
        }
    }
}

/// The view of each string of a vector.
pub open spec fn strs(v: Seq<String>) -> Seq<Seq<char>> {
    v.map_values(|s: String| s@)
}

proof fn lemma_first_terminal_skip(names: Seq<Seq<char>>, i: int)
    requires
        0 <= i <= names.len(),
        forall|j: int| 0 <= j < i ==> known_terminal(lower_seq(#[trigger] names[j])) is None,
    ensures
        first_terminal(names) == (match first_terminal(names.skip(i)) {
            Some((k, d)) => Some((k + i as nat, d)),
            None => None,
        }),
    decreases i,
{
    if i > 0 {
        lemma_first_terminal_skip(names.drop_first(), i - 1);
        assert(names.drop_first().skip(i - 1) == names.skip(i));
    } else {
        assert(names.skip(0) == names);
    }
}

/// Finds the terminal emulator among a process's ancestors (nearest
/// first): the index of the first known terminal name and its display name.
pub fn terminal_from_ancestors(names: &Vec<String>) -> (r: Option<(usize, String)>)
    ensures
        match (first_terminal(strs(names@)), r) {
            (Some((i, d)), Some((k, e))) => k as nat == i && e@ == d,
            (None, None) => true,
            _ => false,
        },
{
    let ghost ns = strs(names@);
    let mut i: usize = 0;
    while i < names.len()
        invariant
            i <= names.len(),
            ns == strs(names@),
            forall|j: int| 0 <= j < i ==> known_terminal(lower_seq(#[trigger] ns[j])) is None,
        decreases names.len() - i,
    {
        let lower = lower_chars(&chars_of(names[i].as_str()));
        assert(ns[i as int] == names@[i as int]@);
        match known_terminal_exec(&lower) {
            Some(d) => {
                proof {
                    lemma_first_terminal_skip(ns, i as int);
                    assert(ns.skip(i as int)[0] == ns[i as int]);
                }
                return Some((i, string_of(&chars_of(d))));
            },
            None => {},
        }
        i += 1;
    }
    proof {
        lemma_first_terminal_skip(ns, i as int);
    }
    None
}

/// The command whose `--version` reports a terminal's version: a few
/// server processes map to their client command; otherwise the process's
/// executable path when known, else its name.
pub open spec fn terminal_command(name: Seq<char>, exe: Option<Seq<char>>) -> Seq<char> {
    let lower = lower_seq(name);
    let command = if lower == "gnome-terminal-server"@ {
        "gnome-terminal"@
    } else if lower == "wezterm-gui"@ {
        "wezterm"@
    } else {
        name
    };
    if command == name {
        match exe {
            Some(e) => e,
            None => command,
        }
    } else {
        command
    }
}

/// The command to ask for a terminal's version.
pub fn terminal_version_command(name: &str, exe: Option<&str>) -> (r: String)
    ensures
        r@ == terminal_command(name@, match exe {
            Some(e) => Some(e@),
            None => None,
        }),
{
    let v = chars_of(name);
    let lower = lower_chars(&v);
    let command = if eq_str(&lower, "gnome-terminal-server") {
        chars_of("gnome-terminal")
    } else if eq_str(&lower, "wezterm-gui") {
        chars_of("wezterm")
    } else {
        chars_of(name)
    };
    if crate::strings::eq_chars(&command, &v) {
        match exe {
            Some(e) => string_of(&chars_of(e)),
            None => string_of(&command),
        }
    } else {
        string_of(&command)
    }
}

/// `XDG_SESSION_TYPE` shown as `Wayland` or `X11` (any letter case).
pub open spec fn session_spec(value: Option<Seq<char>>) -> Option<Seq<char>> {
    match value {
        Some(v) => if eq_ignore_case(v, "wayland"@) {
            Some("Wayland"@)
        } else if eq_ignore_case(v, "x11"@) {
            Some("X11"@)
        } else {
            None
        },
        None => None,
    }
}

/// The display session from the value of `XDG_SESSION_TYPE`.
pub fn session_type(value: Option<&str>) -> (r: Option<&'static str>)
    ensures
        match session_spec(match value {
            Some(v) => Some(v@),
            None => None,
        }) {
            Some(d) => r is Some && r->0@ == d,
            None => r is None,
        },
{
    match value {
        Some(v) => {
            let c = chars_of(v);
            if eq_ignore_case_str(&c, "wayland") {
                Some("Wayland")
            } else if eq_ignore_case_str(&c, "x11") {
                Some("X11")
            } else {
                None
            }
        },
        None => None,
    }
}

/// The first window manager recognised among process names.
pub open spec fn first_wm(names: Seq<Seq<char>>) -> Option<Seq<char>>
    decreases names.len(),
{
    if names.len() == 0 {
        None
    } else {
        match known_wm(lower_seq(names[0])) {
            Some(d) => Some(d),
            None => first_wm(names.drop_first()),
        }
    }
}

/// The window manager line: the first known window manager among the
/// running processes' names, followed by the session type in brackets when
/// it is Wayland or X11.
pub open spec fn wm_spec(names: Seq<Seq<char>>, session: Option<Seq<char>>) -> Option<Seq<char>> {
    match first_wm(names) {
        Some(wm) => match session_spec(session) {
            Some(st) => Some(wm + " ("@ + st + ")"@),
            None => Some(wm),
        },
        None => None,
    }
}

/// The window manager, from the names of the running processes and the
/// value of `XDG_SESSION_TYPE`.
pub fn window_manager(process_names: &Vec<String>, session: Option<&str>) -> (r: Option<String>)
    ensures
        opt_view(r) == wm_spec(strs(process_names@), match session {
            Some(v) => Some(v@),
            None => None,
        }),
{
    let ghost ns = strs(process_names@);
    let mut i: usize = 0;
    assert(ns.skip(0) == ns);
    while i < process_names.len()
        invariant
            i <= process_names.len(),
            ns == strs(process_names@),
            first_wm(ns) == first_wm(ns.skip(i as int)),
        decreases process_names.len() - i,
    {
        let lower = lower_chars(&chars_of(process_names[i].as_str()));
        let ghost rest = ns.skip(i as int);
        assert(rest[0] == process_names@[i as int]@);
        assert(rest.drop_first() == ns.skip(i + 1));
        match known_wm_exec(&lower) {
            Some(wm) => {
                let mut out = chars_of(wm);
                match session_type(session) {
                    Some(st) => {
                        push_str(&mut out, " (");
                        push_str(&mut out, st);
                        push_str(&mut out, ")");
                    },
                    None => {},
                }
                return Some(string_of(&out));
            },
            None => {},
        }
        i += 1;
    }
    assert(ns.skip(i as int).len() == 0);
    None
}


/// The first entry of a desktop list such as `ubuntu:GNOME`.
pub open spec fn desktop_primary(desktop: Seq<char>) -> Seq<char> {
    match index_of(desktop, ':') {
        Some(i) => desktop.take(i as int),
        None => desktop,
    }
}

/// The command whose `--version` gives the desktop's version: the Plasma
/// shell for KDE, the GNOME shell for GNOME, none for other desktops.
pub open spec fn desktop_command(desktop: Seq<char>) -> Option<Seq<char>> {
    let lower = lower_seq(desktop_primary(desktop));
    if contains_seq(lower, "kde"@) || contains_seq(lower, "plasma"@) {
        Some("plasmashell"@)
    } else if contains_seq(lower, "gnome"@) {
        Some("gnome-shell"@)
    } else {
        None
    }
}

/// The desktop line from the desktop name and the version its shell
/// reported (used for KDE Plasma and GNOME only).
pub open spec fn desktop_spec(desktop: Seq<char>, version: Option<Seq<char>>) -> Seq<char> {
    let primary = desktop_primary(desktop);
    let lower = lower_seq(primary);
    if contains_seq(lower, "kde"@) || contains_seq(lower, "plasma"@) {
        match version {
            Some(v) => "KDE Plasma "@ + v,
            None => "KDE Plasma"@,
        }
    } else if contains_seq(lower, "gnome"@) {
        match version {
            Some(v) => "GNOME "@ + v,
            None => "GNOME"@,
        }
    } else if contains_seq(lower, "xfce"@) {
        "XFCE"@
    } else if contains_seq(lower, "lxqt"@) {
        "LXQt"@
    } else if contains_seq(lower, "lxde"@) {
        "LXDE"@
    } else if contains_seq(lower, "cinnamon"@) {
        "Cinnamon"@
    } else if contains_seq(lower, "mate"@) {
        "MATE"@
    } else if contains_seq(lower, "budgie"@) {
        "Budgie"@
    } else if contains_seq(lower, "deepin"@) {
        "Deepin"@
    } else {
        primary
    }
}

/// The first entry of a desktop list, lower-cased, and the entry itself.
fn desktop_parts(desktop: &str) -> (r: (Vec<char>, Vec<char>))
    ensures
        r.0@ == desktop_primary(desktop@),
        r.1@ == lower_seq(desktop_primary(desktop@)),
{
    let v = chars_of(desktop);
    let primary = match find_char(&v, ':') {
        Some(i) => {
            let p = slice_of(&v, 0, i);
            assert(p@ == v@.take(i as int));
            p
        },
        None => v,
    };
    let lower = lower_chars(&primary);
    (primary, lower)
}

/// Which command, if any, reports the version of the desktop named by
/// `XDG_CURRENT_DESKTOP` (or the session variables that stand in for it).
pub fn desktop_version_command(desktop: &str) -> (r: Option<&'static str>)
    ensures
        match desktop_command(desktop@) {
            Some(c) => r is Some && r->0@ == c,
            None => r is None,
        },
{
    let (_primary, lower) = desktop_parts(desktop);
    if contains(&lower, "kde") || contains(&lower, "plasma") {
        Some("plasmashell")
    } else if contains(&lower, "gnome") {
        Some("gnome-shell")
    } else {
        None
    }
}

/// The desktop environment line; `version` is what the desktop's shell
/// reported (see [`desktop_version_command`]).
pub fn desktop_environment(desktop: &str, version: Option<&str>) -> (r: String)
    ensures
        r@ == desktop_spec(desktop@, match version {
            Some(v) => Some(v@),
            None => None,
        }),
{
    let (primary, lower) = desktop_parts(desktop);
    let mut out: Vec<char> = Vec::new();
    if contains(&lower, "kde") || contains(&lower, "plasma") {
        match version {
            Some(v) => {
                push_str(&mut out, "KDE Plasma ");
                push_str(&mut out, v);
            },
            None => push_str(&mut out, "KDE Plasma"),
        }
    } else if contains(&lower, "gnome") {
        match version {
            Some(v) => {
                push_str(&mut out, "GNOME ");
                push_str(&mut out, v);
            },
            None => push_str(&mut out, "GNOME"),
        }
    } else if contains(&lower, "xfce") {
        push_str(&mut out, "XFCE");
    } else if contains(&lower, "lxqt") {
        push_str(&mut out, "LXQt");
    } else if contains(&lower, "lxde") {
        push_str(&mut out, "LXDE");
    } else if contains(&lower, "cinnamon") {
        push_str(&mut out, "Cinnamon");
    } else if contains(&lower, "mate") {
        push_str(&mut out, "MATE");
    } else if contains(&lower, "budgie") {
        push_str(&mut out, "Budgie");
    } else if contains(&lower, "deepin") {
        push_str(&mut out, "Deepin");
    } else {
        return string_of(&primary);
    }
    assert(out@ == desktop_spec(desktop@, match version {
        Some(v) => Some(v@),
        None => None,
    }));
    string_of(&out)
}

/// What `std::path::Path::file_name` gives for a path (as UTF-8 text): its
/// last component, if it is a normal one.
pub uninterp spec fn path_file_name(path: Seq<char>) -> Option<Seq<char>>;

/// Whether `s` holds no `/`.
pub open spec fn no_slash(s: Seq<char>) -> bool {
    forall|i: int| 0 <= i < s.len() ==> s[i] != '/'
}

/// Calls `Path::file_name` and converts the component back to text. The
/// contract names the result, and states what std's documentation gives:
/// a plain file name (no `/`, and not empty, `.` or `..`) is its own file
/// name, and a path whose last component is `..` has none. Which component
/// std picks in other paths (trailing slashes, `.` components) is not
/// stated.
#[verifier::external_body]
fn file_name_of(path: &str) -> (r: Option<String>)
    ensures
        opt_view(r) == path_file_name(path@),
        no_slash(path@) && path@.len() > 0 && path@ != seq!['.'] && path@ != seq!['.', '.'] ==> opt_view(r)
            == Some(path@),
        path@ == seq!['.', '.'] || (path@.len() >= 3 && path@.skip(path@.len() - 3) == seq!['/', '.', '.'])
            ==> r is None,
{
    std::path::Path::new(path).file_name().and_then(|name| name.to_str()).map(|name| name.to_string())
}

/// The shell program's name from the value of `SHELL`: the path's file
/// name, or the whole value when it has none. A value without `/` (other
/// than empty or `.`) is kept as it is.
pub fn shell_program(shell: &str) -> (r: String)
    ensures
        r@ == (match path_file_name(shell@) {
            Some(n) => n,
            None => shell@,
        }),
        no_slash(shell@) && shell@.len() > 0 && shell@ != seq!['.'] ==> r@ == shell@,
{
    match file_name_of(shell) {
        Some(n) => n,
        None => string_of(&chars_of(shell)),
    }
}

/// The environment variable that holds the version of the shell `name`.
pub fn shell_version_var(name: &str) -> (r: Option<&'static str>)
    ensures
        match shell_version_var_spec(name@) {
            Some(d) => r is Some && r->0@ == d,
            None => r is None,
        },
{
    let v = chars_of(name);
    shell_version_var_spec_exec(&v)
}

/// The shell line: the shell's name and the version found in the value of
/// its version variable.
pub fn shell_name(name: &str, version_raw: Option<&str>) -> (r: String)
    ensures
        r@ == with_version(name@, match version_raw {
            Some(v) => Some(v@),
            None => None,
        }),
{
    let mut out = chars_of(name);
    append_version(&mut out, version_raw);
    string_of(&out)
}

} // verus!
