//! `os-release` parsing, the distribution line and long uptimes.
use vstd::prelude::*;

use crate::format::split_secs;
use crate::strings::{
    chars_of, decimal, eq_str, find_char, is_ws_char, join, join_chars, lines, lines_of,
    opt_view, push_decimal, push_str, seqs, slice_of, string_of, strip_both, strip_both_chars,
    trim, trim_chars, index_of,
};
use crate::icons::ICON_IMMUTABLE;
use crate::text::Language;

verus! {

/// The fields of an `os-release` file that are read.
#[derive(Clone, Debug, Default)]
pub struct OsRelease {
    pub name: Option<String>,
    pub pretty_name: Option<String>,
    pub id: Option<String>,
    pub version: Option<String>,
    pub version_id: Option<String>,
    pub variant: Option<String>,
    pub variant_id: Option<String>,
    pub image_id: Option<String>,
    pub build_id: Option<String>,
}

/// The key and value of one `os-release` line: the line is trimmed; blank
/// lines, comments and lines without `=` hold no entry; the value is
/// trimmed and loses its surrounding double quotes.
pub open spec fn os_entry(line: Seq<char>) -> Option<(Seq<char>, Seq<char>)> {
    let t = trim(line);
    if t.len() == 0 || t[0] == '#' {
        None
    } else {
        match index_of(t, '=') {
            Some(i) => Some((t.take(i as int), strip_both(trim(t.skip(i + 1int)), '"'))),
            None => None,
        }
    }
}

/// The value the last line with key `key` gives, among `ls`.
pub open spec fn last_value(ls: Seq<Seq<char>>, key: Seq<char>) -> Option<Seq<char>>
    decreases ls.len(),
{
    if ls.len() == 0 {
        None
    } else {
        match os_entry(ls.last()) {
            Some((k, v)) if k == key => Some(v),
            _ => last_value(ls.drop_last(), key),
        }
    }
}

/// The value of `key` in the text of an `os-release` file: later lines win.
pub open spec fn os_value(content: Seq<char>, key: Seq<char>) -> Option<Seq<char>> {
    last_value(lines(content), key)
}

proof fn lemma_os_keys_distinct()
    ensures
        "NAME"@ != "PRETTY_NAME"@,
        "NAME"@ != "ID"@,
        "NAME"@ != "VERSION"@,
        "NAME"@ != "VERSION_ID"@,
        "NAME"@ != "VARIANT"@,
        "NAME"@ != "VARIANT_ID"@,
        "NAME"@ != "IMAGE_ID"@,
        "NAME"@ != "BUILD_ID"@,
        "PRETTY_NAME"@ != "ID"@,
        "PRETTY_NAME"@ != "VERSION"@,
        "PRETTY_NAME"@ != "VERSION_ID"@,
        "PRETTY_NAME"@ != "VARIANT"@,
        "PRETTY_NAME"@ != "VARIANT_ID"@,
        "PRETTY_NAME"@ != "IMAGE_ID"@,
        "PRETTY_NAME"@ != "BUILD_ID"@,
        "ID"@ != "VERSION"@,
        "ID"@ != "VERSION_ID"@,
        "ID"@ != "VARIANT"@,
        "ID"@ != "VARIANT_ID"@,
        "ID"@ != "IMAGE_ID"@,
        "ID"@ != "BUILD_ID"@,
        "VERSION"@ != "VERSION_ID"@,
        "VERSION"@ != "VARIANT"@,
        "VERSION"@ != "VARIANT_ID"@,
        "VERSION"@ != "IMAGE_ID"@,
        "VERSION"@ != "BUILD_ID"@,
        "VERSION_ID"@ != "VARIANT"@,
        "VERSION_ID"@ != "VARIANT_ID"@,
        "VERSION_ID"@ != "IMAGE_ID"@,
        "VERSION_ID"@ != "BUILD_ID"@,
        "VARIANT"@ != "VARIANT_ID"@,
        "VARIANT"@ != "IMAGE_ID"@,
        "VARIANT"@ != "BUILD_ID"@,
        "VARIANT_ID"@ != "IMAGE_ID"@,
        "VARIANT_ID"@ != "BUILD_ID"@,
        "IMAGE_ID"@ != "BUILD_ID"@,
{
    reveal_strlit("NAME");
    assert("NAME"@.len() == 4);
    assert("NAME"@[1] == 'A');
    assert("NAME"@[0] == 'N');
    reveal_strlit("PRETTY_NAME");
    assert("PRETTY_NAME"@.len() == 11);
    assert("PRETTY_NAME"@[1] == 'R');
    assert("PRETTY_NAME"@[0] == 'P');
    reveal_strlit("ID");
    assert("ID"@.len() == 2);
    assert("ID"@[1] == 'D');
    assert("ID"@[0] == 'I');
    reveal_strlit("VERSION");
    assert("VERSION"@.len() == 7);
    assert("VERSION"@[1] == 'E');
    assert("VERSION"@[0] == 'V');
    reveal_strlit("VERSION_ID");
    assert("VERSION_ID"@.len() == 10);
    assert("VERSION_ID"@[1] == 'E');
    assert("VERSION_ID"@[0] == 'V');
    reveal_strlit("VARIANT");
    assert("VARIANT"@.len() == 7);
    assert("VARIANT"@[1] == 'A');
    assert("VARIANT"@[0] == 'V');
    reveal_strlit("VARIANT_ID");
    assert("VARIANT_ID"@.len() == 10);
    assert("VARIANT_ID"@[1] == 'A');
    assert("VARIANT_ID"@[0] == 'V');
    reveal_strlit("IMAGE_ID");
    assert("IMAGE_ID"@.len() == 8);
    assert("IMAGE_ID"@[1] == 'M');
    assert("IMAGE_ID"@[0] == 'I');
    reveal_strlit("BUILD_ID");
    assert("BUILD_ID"@.len() == 8);
    assert("BUILD_ID"@[1] == 'U');
    assert("BUILD_ID"@[0] == 'B');
}

proof fn lemma_last_value_step(pre: Seq<Seq<char>>, line: Seq<char>, key: Seq<char>)
    ensures
        last_value(pre.push(line), key) == (match os_entry(line) {
            Some((k, v)) => if k == key {
                Some(v)
            } else {
                last_value(pre, key)
            },
            None => last_value(pre, key),
        }),
{
    assert(pre.push(line).drop_last() == pre);
}

/// Parses one line into key and value.
fn parse_entry(line: &Vec<char>) -> (r: Option<(Vec<char>, Vec<char>)>)
    ensures
        match (os_entry(line@), r) {
            (Some((k, v)), Some((a, b))) => a@ == k && b@ == v,
            (None, None) => true,
            _ => false,
        },
{
    let t = trim_chars(line);
    if t.len() == 0 || t[0] == '#' {
        return None;
    }
    match find_char(&t, '=') {
        Some(i) => {
            let key = slice_of(&t, 0, i);
            let raw = slice_of(&t, i + 1, t.len());
            assert(key@ == t@.take(i as int));
            assert(raw@ == t@.skip(i + 1));
            let value = strip_both_chars(&trim_chars(&raw), '"');
            assert(index_of(t@, '=') == Some(i as nat));
            assert(os_entry(line@) == Some((key@, value@)));
            Some((key, value))
        },
        None => {
            assert(index_of(t@, '=') is None);
            None
        },
    }
}

/// Parses the text of an `os-release` file.
#[verifier::rlimit(40)]
pub fn parse_os_release(content: &str) -> (info: OsRelease)
    ensures
        opt_view(info.name) == os_value(content@, "NAME"@),
        opt_view(info.pretty_name) == os_value(content@, "PRETTY_NAME"@),
        opt_view(info.id) == os_value(content@, "ID"@),
        opt_view(info.version) == os_value(content@, "VERSION"@),
        opt_view(info.version_id) == os_value(content@, "VERSION_ID"@),
        opt_view(info.variant) == os_value(content@, "VARIANT"@),
        opt_view(info.variant_id) == os_value(content@, "VARIANT_ID"@),
        opt_view(info.image_id) == os_value(content@, "IMAGE_ID"@),
        opt_view(info.build_id) == os_value(content@, "BUILD_ID"@),
{
    let v = chars_of(content);
    let ls = lines_of(&v);
    let mut info = OsRelease {
        name: None,
        pretty_name: None,
        id: None,
        version: None,
        version_id: None,
        variant: None,
        variant_id: None,
        image_id: None,
        build_id: None,
    };
    let ghost all = seqs(ls@);
    let mut i: usize = 0;
    while i < ls.len()
        invariant
            i <= ls.len(),
            all == seqs(ls@),
            all == lines(v@),
            v@ == content@,
            opt_view(info.name) == last_value(all.take(i as int), "NAME"@),
            opt_view(info.pretty_name) == last_value(all.take(i as int), "PRETTY_NAME"@),
            opt_view(info.id) == last_value(all.take(i as int), "ID"@),
            opt_view(info.version) == last_value(all.take(i as int), "VERSION"@),
            opt_view(info.version_id) == last_value(all.take(i as int), "VERSION_ID"@),
            opt_view(info.variant) == last_value(all.take(i as int), "VARIANT"@),
            opt_view(info.variant_id) == last_value(all.take(i as int), "VARIANT_ID"@),
            opt_view(info.image_id) == last_value(all.take(i as int), "IMAGE_ID"@),
            opt_view(info.build_id) == last_value(all.take(i as int), "BUILD_ID"@),
        decreases ls.len() - i,
    {
        let ghost pre = all.take(i as int);
        let ghost cur = all.take(i + 1);
        assert(cur == pre.push(ls@[i as int]@));
        proof {
            lemma_last_value_step(pre, ls@[i as int]@, "NAME"@);
            lemma_last_value_step(pre, ls@[i as int]@, "PRETTY_NAME"@);
            lemma_last_value_step(pre, ls@[i as int]@, "ID"@);
            lemma_last_value_step(pre, ls@[i as int]@, "VERSION"@);
            lemma_last_value_step(pre, ls@[i as int]@, "VERSION_ID"@);
            lemma_last_value_step(pre, ls@[i as int]@, "VARIANT"@);
            lemma_last_value_step(pre, ls@[i as int]@, "VARIANT_ID"@);
            lemma_last_value_step(pre, ls@[i as int]@, "IMAGE_ID"@);
            lemma_last_value_step(pre, ls@[i as int]@, "BUILD_ID"@);
        }
        proof {
            lemma_os_keys_distinct();
        }
        match parse_entry(&ls[i]) {
            Some((key, value)) => {
                let s = string_of(&value);
                if eq_str(&key, "NAME") {
                    info.name = Some(s);
                } else if eq_str(&key, "PRETTY_NAME") {
                    info.pretty_name = Some(s);
                } else if eq_str(&key, "ID") {
                    info.id = Some(s);
                } else if eq_str(&key, "VERSION") {
                    info.version = Some(s);
                } else if eq_str(&key, "VERSION_ID") {
                    info.version_id = Some(s);
                } else if eq_str(&key, "VARIANT") {
                    info.variant = Some(s);
                } else if eq_str(&key, "VARIANT_ID") {
                    info.variant_id = Some(s);
                } else if eq_str(&key, "IMAGE_ID") {
                    info.image_id = Some(s);
                } else if eq_str(&key, "BUILD_ID") {
                    info.build_id = Some(s);
                }
            },
            None => {},
        }
        i += 1;
    }
    assert(all.take(ls.len() as int) == all);
    info
}


/// The word form for `value`: English singular for exactly 1; Russian by
/// the last two digits (…1 but not …11; …2–…4 but not …12–…14; others).
pub open spec fn plural_word(
    language: Language,
    value: nat,
    en_one: Seq<char>,
    en_many: Seq<char>,
    ru_one: Seq<char>,
    ru_few: Seq<char>,
    ru_many: Seq<char>,
) -> Seq<char> {
    match language {
        Language::English => if value == 1 {
            en_one
        } else {
            en_many
        },
        Language::Russian => {
            let mod10 = value % 10;
            let mod100 = value % 100;
            if mod10 == 1 && mod100 != 11 {
                ru_one
            } else if 2 <= mod10 <= 4 && !(12 <= mod100 <= 14) {
                ru_few
            } else {
                ru_many
            }
        },
    }
}

/// Picks the word form that agrees with `value`.
pub fn pluralize<'a>(
    language: Language,
    value: u64,
    en_one: &'a str,
    en_many: &'a str,
    ru_one: &'a str,
    ru_few: &'a str,
    ru_many: &'a str,
) -> (r: &'a str)
    ensures
        r@ == plural_word(language, value as nat, en_one@, en_many@, ru_one@, ru_few@, ru_many@),
{
    match language {
        Language::English => {
            if value == 1 {
                en_one
            } else {
                en_many
            }
        },
        Language::Russian => {
            let mod10 = value % 10;
            let mod100 = value % 100;
            if mod10 == 1 && mod100 != 11 {
                ru_one
            } else if 2 <= mod10 && mod10 <= 4 && !(12 <= mod100 && mod100 <= 14) {
                ru_few
            } else {
                ru_many
            }
        },
    }
}

/// `"{n} {word}"` with the word form agreeing with `n`.
pub open spec fn count_phrase(
    language: Language,
    n: nat,
    en_one: Seq<char>,
    en_many: Seq<char>,
    ru_one: Seq<char>,
    ru_few: Seq<char>,
    ru_many: Seq<char>,
) -> Seq<char> {
    decimal(n) + " "@ + plural_word(language, n, en_one, en_many, ru_one, ru_few, ru_many)
}

/// The parts of a long uptime: days and hours when non-zero, then minutes
/// when non-zero or when nothing came before.
pub open spec fn uptime_parts(secs: nat, language: Language) -> Seq<Seq<char>> {
    let (d, h, m, s) = split_secs(secs);
    let p1 = if d > 0 {
        seq![count_phrase(language, d, "day"@, "days"@, "день"@, "дня"@, "дней"@)]
    } else {
        Seq::<Seq<char>>::empty()
    };
    let p2 = if h > 0 {
        p1.push(count_phrase(language, h, "hour"@, "hours"@, "час"@, "часа"@, "часов"@))
    } else {
        p1
    };
    if m > 0 || p2.len() == 0 {
        p2.push(count_phrase(language, m, "min"@, "mins"@, "минута"@, "минуты"@, "минут"@))
    } else {
        p2
    }
}

/// Appends `"{n} {word}"` as a new part.
fn push_count_phrase(
    parts: &mut Vec<Vec<char>>,
    language: Language,
    n: u64,
    en_one: &str,
    en_many: &str,
    ru_one: &str,
    ru_few: &str,
    ru_many: &str,
)
    ensures
        seqs(final(parts)@) == seqs(old(parts)@).push(
            count_phrase(language, n as nat, en_one@, en_many@, ru_one@, ru_few@, ru_many@),
        ),
{
    let mut part: Vec<char> = Vec::new();
    push_decimal(&mut part, n);
    push_str(&mut part, " ");
    push_str(&mut part, pluralize(language, n, en_one, en_many, ru_one, ru_few, ru_many));
    let ghost old_parts = parts@;
    let ghost p = part@;
    parts.push(part);
    assert(seqs(parts@) =~= seqs(old_parts).push(p));
}

/// Formats an uptime in words, such as `2 days, 3 hours, 1 min`.
pub fn format_uptime_long(uptime_secs: u64, language: Language) -> (s: String)
    ensures
        s@ == join(uptime_parts(uptime_secs as nat, language), ", "@),
{
    let days = uptime_secs / 86_400;
    let rem = uptime_secs % 86_400;
    let hours = rem / 3_600;
    let rem2 = rem % 3_600;
    let minutes = rem2 / 60;
    let mut parts: Vec<Vec<char>> = Vec::new();
    assert(seqs(parts@) =~= Seq::<Seq<char>>::empty());
    if days > 0 {
        push_count_phrase(&mut parts, language, days, "day", "days", "день", "дня", "дней");
    }
    if hours > 0 {
        push_count_phrase(&mut parts, language, hours, "hour", "hours", "час", "часа", "часов");
    }
    if minutes > 0 || parts.len() == 0 {
        push_count_phrase(
            &mut parts,
            language,
            minutes,
            "min",
            "mins",
            "минута",
            "минуты",
            "минут",
        );
    }
    assert(seqs(parts@) == uptime_parts(uptime_secs as nat, language));
    let joined = join_chars(&parts, ", ");
    string_of(&joined)
}

/// The first present value among three.
pub open spec fn first_some3(
    a: Option<Seq<char>>,
    b: Option<Seq<char>>,
    c: Option<Seq<char>>,
) -> Option<Seq<char>> {
    if a is Some {
        a
    } else if b is Some {
        b
    } else {
        c
    }
}

/// `IMAGE_ID`, `ID` or `NAME` (the first present), then `:` with
/// `VARIANT_ID` or `VARIANT`, or else with `VERSION_ID`, and a space and the
/// immutable-system icon on an image-based (ostree) system.
pub open spec fn distro_line_spec(info: OsRelease, immutable: bool) -> Option<Seq<char>> {
    match first_some3(opt_view(info.image_id), opt_view(info.id), opt_view(info.name)) {
        None => None,
        Some(id) => {
            let variant = if info.variant_id is Some {
                opt_view(info.variant_id)
            } else {
                opt_view(info.variant)
            };
            let line = match variant {
                Some(v) => id + ":"@ + v,
                None => match opt_view(info.version_id) {
                    Some(v) => id + ":"@ + v,
                    None => id,
                },
            };
            Some(
                if immutable {
                    line + " "@ + ICON_IMMUTABLE@
                } else {
                    line
                },
            )
        },
    }
}

/// The distribution line of the overview; `immutable` tells whether the
/// system is image-based (see `is_immutable_os`).
pub fn distro_variant_line(info: &OsRelease, immutable: bool) -> (r: Option<String>)
    ensures
        opt_view(r) == distro_line_spec(*info, immutable),
{
    let id: &String = match &info.image_id {
        Some(s) => s,
        None => match &info.id {
            Some(s) => s,
            None => match &info.name {
                Some(s) => s,
                None => {
                    return None;
                },
            },
        },
    };
    let mut line = chars_of(id.as_str());
    let variant: Option<&String> = match &info.variant_id {
        Some(s) => Some(s),
        None => match &info.variant {
            Some(s) => Some(s),
            None => None,
        },
    };
    match variant {
        Some(v) => {
            push_str(&mut line, ":");
            push_str(&mut line, v.as_str());
        },
        None => match &info.version_id {
            Some(v) => {
                push_str(&mut line, ":");
                push_str(&mut line, v.as_str());
            },
            None => {},
        },
    }
    if immutable {
        push_str(&mut line, " ");
        push_str(&mut line, ICON_IMMUTABLE);
    }
    Some(string_of(&line))
}

/// A long uptime names the days and the hours exactly when there are
/// whole ones, and the minutes exactly when there are some or when the
/// machine has been up for less than an hour: so it has one part for
/// each of these, in the order days, hours, minutes.
pub proof fn lemma_uptime_parts(secs: nat, language: Language)
    ensures
        uptime_parts(secs, language).len() == (if secs >= 86_400 {
            1int
        } else {
            0int
        }) + (if secs % 86_400 >= 3_600 {
            1int
        } else {
            0int
        }) + (if secs % 3_600 >= 60 || secs < 3_600 {
            1int
        } else {
            0int
        }),
        secs >= 86_400 ==> uptime_parts(secs, language)[0] == count_phrase(
            language,
            secs / 86_400,
            "day"@,
            "days"@,
            "день"@,
            "дня"@,
            "дней"@,
        ),
        secs % 86_400 >= 3_600 ==> uptime_parts(secs, language)[if secs >= 86_400 {
            1int
        } else {
            0int
        }] == count_phrase(language, (secs % 86_400) / 3_600, "hour"@, "hours"@, "час"@, "часа"@, "часов"@),
        secs % 3_600 >= 60 || secs < 3_600 ==> uptime_parts(secs, language).last() == count_phrase(
            language,
            (secs % 3_600) / 60,
            "min"@,
            "mins"@,
            "минута"@,
            "минуты"@,
            "минут"@,
        ),
{
    let rem = secs % 86_400;
    assert(rem % 3_600 == secs % 3_600) by (nonlinear_arith)
        requires rem == secs % 86_400;
    assert(secs >= 86_400 <==> secs / 86_400 > 0) by (nonlinear_arith);
    assert(rem >= 3_600 <==> rem / 3_600 > 0) by (nonlinear_arith)
        requires rem >= 0;
    assert(secs < 3_600 <==> (secs / 86_400 == 0 && rem / 3_600 == 0)) by (nonlinear_arith)
        requires rem == secs % 86_400;
    assert(secs % 3_600 >= 60 <==> (secs % 3_600) / 60 > 0) by (nonlinear_arith);
}

/// An uptime of `n` whole hours (and under a minute more), less than a
/// day, reads as just the hours: `"2 hours"`, with no minute part.
pub proof fn lemma_uptime_whole_hours(n: nat, extra: nat)
    requires
        1 <= n < 24,
        extra < 60,
    ensures
        join(uptime_parts(n * 3_600 + extra, Language::English), ", "@) == decimal(n) + (if n == 1 {
            " hour"@
        } else {
            " hours"@
        }),
{
    let secs = n * 3_600 + extra;
    assert(secs / 86_400 == 0 && secs % 86_400 == secs) by (nonlinear_arith)
        requires secs == n * 3_600 + extra, n < 24, extra < 60;
    assert(secs / 3_600 == n && secs % 3_600 == extra) by (nonlinear_arith)
        requires secs == n * 3_600 + extra, extra < 60;
    assert(extra / 60 == 0);
    reveal_strlit(" hour");
    reveal_strlit(" hours");
    reveal_strlit("hour");
    reveal_strlit("hours");
    reveal_strlit(" ");
    let parts = uptime_parts(secs, Language::English);
    assert(parts.len() == 1);
    assert(join(parts, ", "@) == parts[0]);
    assert(" "@ + "hour"@ =~= " hour"@);
    assert(" "@ + "hours"@ =~= " hours"@);
    assert(parts[0] == decimal(n) + " "@ + (if n == 1 { "hour"@ } else { "hours"@ }));
    assert(decimal(n) + " "@ + "hour"@ =~= decimal(n) + " hour"@);
    assert(decimal(n) + " "@ + "hours"@ =~= decimal(n) + " hours"@);
}

/// Counts agree with their word: in English the singular for one and the
/// plural for any other number; in Russian the first form for numbers
/// ending in 1 (but not 11), the second for those ending in 2, 3 or 4 (but
/// not 12 to 14), and the third for all others.
pub proof fn lemma_count_words(
    n: nat,
    en_one: Seq<char>,
    en_many: Seq<char>,
    ru_one: Seq<char>,
    ru_few: Seq<char>,
    ru_many: Seq<char>,
)
    ensures
        count_phrase(Language::English, n, en_one, en_many, ru_one, ru_few, ru_many) == decimal(n) + " "@ + (if n
            == 1 {
            en_one
        } else {
            en_many
        }),
        n % 10 == 1 && n % 100 != 11 ==> count_phrase(Language::Russian, n, en_one, en_many, ru_one, ru_few, ru_many)
            == decimal(n) + " "@ + ru_one,
        2 <= n % 10 <= 4 && !(12 <= n % 100 <= 14) ==> count_phrase(
            Language::Russian,
            n,
            en_one,
            en_many,
            ru_one,
            ru_few,
            ru_many,
        ) == decimal(n) + " "@ + ru_few,
        (n % 10 == 0 || n % 10 >= 5 || 11 <= n % 100 <= 14) ==> count_phrase(
            Language::Russian,
            n,
            en_one,
            en_many,
            ru_one,
            ru_few,
            ru_many,
        ) == decimal(n) + " "@ + ru_many,
{
}

} // verus!
