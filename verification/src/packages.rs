//! Installed-package counts read from the package managers' listings, and
//! the summary line built from them.
use vstd::prelude::*;
use crate::strings::{
    chars_of, decimal, eq_ignore_case, eq_ignore_case_str, has_prefix, join, join_chars, lines,
    lines_of, push_decimal, push_str, seqs, starts_with, string_of, trim, trim_chars,
};

verus! {

/// Which lines of a listing name a package.
#[derive(Clone, Copy, Debug, PartialEq, Eq)]
pub enum Listing {
    /// Every line that is not blank.
    Plain,
    /// Every line that is not blank and does not start with `gpg-pubkey`
    /// (the keys `rpm -qa` lists beside the packages).
    Rpm,
    /// Every line that is not blank and is not the `application` column
    /// header.
    Flatpak,
}

/// Whether `line` names a package in a listing of kind `kind`.
pub open spec fn listed(kind: Listing, line: Seq<char>) -> bool {
    let t = trim(line);
    &&& t.len() > 0
    &&& match kind {
        Listing::Plain => true,
        Listing::Rpm => !has_prefix(t, "gpg-pubkey"@),
        Listing::Flatpak => !eq_ignore_case(t, "application"@),
    }
}

/// The number of lines of `ls` that name a package.
pub open spec fn count_listed(kind: Listing, ls: Seq<Seq<char>>) -> nat
    decreases ls.len(),
{
    if ls.len() == 0 {
        0
    } else {
        count_listed(kind, ls.drop_last()) + if listed(kind, ls.last()) {
            1nat
        } else {
            0nat
        }
    }
}

/// The number of packages in the listing `output`.
pub fn count_packages(output: &str, kind: Listing) -> (n: usize)
    ensures
        n == count_listed(kind, lines(output@)),
{
    let text = chars_of(output);
    let ls = lines_of(&text);
    let ghost lv = seqs(ls@);
    let mut n: usize = 0;
    let mut i: usize = 0;
    while i < ls.len()
        invariant
            i <= ls.len(),
            lv == seqs(ls@),
            lv == lines(output@),
            n <= i,
            n == count_listed(kind, lv.take(i as int)),
        decreases ls.len() - i,
    {
        let t = trim_chars(&ls[i]);
        assert(ls@[i as int]@ == lv[i as int]);
        let keep = t.len() > 0 && match kind {
            Listing::Plain => true,
            Listing::Rpm => !starts_with(&t, "gpg-pubkey"),
            Listing::Flatpak => !eq_ignore_case_str(&t, "application"),
        };
        assert(keep == listed(kind, lv[i as int]));
        assert(lv.take(i + 1).drop_last() =~= lv.take(i as int));
        if keep {
            n += 1;
        }
        i += 1;
    }
    assert(lv.take(i as int) =~= lv);
    n
}

/// The packages `rpm -qa` lists, without its `gpg-pubkey` entries.
pub fn count_rpm(output: &str) -> (n: usize)
    ensures
        n == count_listed(Listing::Rpm, lines(output@)),
{
    count_packages(output, Listing::Rpm)
}

/// The packages `flatpak list --columns=application` lists, without its
/// header line.
pub fn count_flatpak(output: &str) -> (n: usize)
    ensures
        n == count_listed(Listing::Flatpak, lines(output@)),
{
    count_packages(output, Listing::Flatpak)
}

/// The non-blank lines of a package manager's listing.
pub fn count_command_lines(output: &str) -> (n: usize)
    ensures
        n == count_listed(Listing::Plain, lines(output@)),
{
    count_packages(output, Listing::Plain)
}

/// The package counts found on the machine, one per package manager; a
/// manager that is missing, or whose listing could not be read, has `None`.
/// `snap` holds the line count of `snap list`, whose first line is a header.
#[derive(Clone, Debug, Default)]
pub struct PackageCounts {
    pub rpm: Option<usize>,
    pub dpkg: Option<usize>,
    pub pacman: Option<usize>,
    pub portage: Option<usize>,
    pub xbps: Option<usize>,
    pub apk: Option<usize>,
    pub eopkg: Option<usize>,
    pub nix: Option<usize>,
    pub flatpak: Option<usize>,
    pub snap: Option<usize>,
    pub brew: Option<usize>,
    pub brew_cask: Option<usize>,
}

/// The summary part for `count` packages of manager `name`: `"<count>
/// (<name>)"`, or nothing when the count is missing or zero.
pub open spec fn part(count: Option<usize>, name: Seq<char>) -> Seq<Seq<char>> {
    match count {
        Some(n) => if n > 0 {
            seq![decimal(n as nat) + " ("@ + name + ")"@]
        } else {
            Seq::empty()
        },
        None => Seq::empty(),
    }
}

/// `n - 1`, or 0 for 0 (`usize::saturating_sub(1)`).
pub open spec fn minus_one(n: usize) -> usize {
    if n > 0 {
        (n - 1) as usize
    } else {
        0
    }
}

/// The summary parts, in the fixed order of the managers.
pub open spec fn summary_parts(c: PackageCounts) -> Seq<Seq<char>> {
    part(c.rpm, "rpm"@) + part(c.dpkg, "dpkg"@) + part(c.pacman, "pacman"@) + part(
        c.portage,
        "portage"@,
    ) + part(c.xbps, "xbps"@) + part(c.apk, "apk"@) + part(c.eopkg, "eopkg"@) + part(
        c.nix,
        "nix"@,
    ) + part(c.flatpak, "flatpak"@) + part(
        match c.snap {
            Some(n) => Some(minus_one(n)),
            None => None,
        },
        "snap"@,
    ) + part(c.brew, "brew"@) + part(c.brew_cask, "brew-cask"@)
}

/// Appends the summary part for `count` packages of manager `name`.
fn push_part(parts: &mut Vec<Vec<char>>, count: Option<usize>, name: &str)
    ensures
        seqs(final(parts)@) == seqs(old(parts)@) + part(count, name@),
{
    match count {
        Some(n) => {
            if n > 0 {
                let mut p: Vec<char> = Vec::new();
                push_decimal(&mut p, n as u64);
                push_str(&mut p, " (");
                push_str(&mut p, name);
                push_str(&mut p, ")");
                let ghost before = parts@;
                let ghost pv = p@;
                parts.push(p);
                assert(seqs(parts@) =~= seqs(before) + part(count, name@));
            } else {
                assert(seqs(parts@) =~= seqs(parts@) + part(count, name@));
            }
        },
        None => {
            assert(seqs(parts@) =~= seqs(parts@) + part(count, name@));
        },
    }
}

/// The installed packages per manager, such as `"1520 (dpkg), 12 (snap)"`:
/// the managers with at least one package (snap's header line not counted),
/// joined with `", "`; `None` when there are none.
pub fn package_summary(counts: &PackageCounts) -> (r: Option<String>)
    ensures
        summary_parts(*counts).len() == 0 ==> r is None,
        summary_parts(*counts).len() > 0 ==> (r matches Some(s) && s@ == join(
            summary_parts(*counts),
            ", "@,
        )),
{
    let mut parts: Vec<Vec<char>> = Vec::new();
    assert(seqs(parts@) =~= Seq::<Seq<char>>::empty());
    push_part(&mut parts, counts.rpm, "rpm");
    push_part(&mut parts, counts.dpkg, "dpkg");
    push_part(&mut parts, counts.pacman, "pacman");
    push_part(&mut parts, counts.portage, "portage");
    push_part(&mut parts, counts.xbps, "xbps");
    push_part(&mut parts, counts.apk, "apk");
    push_part(&mut parts, counts.eopkg, "eopkg");
    push_part(&mut parts, counts.nix, "nix");
    push_part(&mut parts, counts.flatpak, "flatpak");
    let snap = match counts.snap {
        Some(n) => Some(if n > 0 { n - 1 } else { 0 }),
        None => None,
    };
    push_part(&mut parts, snap, "snap");
    push_part(&mut parts, counts.brew, "brew");
    push_part(&mut parts, counts.brew_cask, "brew-cask");
    assert(seqs(parts@) =~= summary_parts(*counts));
    if parts.len() == 0 {
        None
    } else {
        let joined = join_chars(&parts, ", ");
        Some(string_of(&joined))
    }
}

/// One when a manager's package count is present and positive.
pub open spec fn counted(count: Option<usize>) -> int {
    match count {
        Some(k) => if k > 0 {
            1
        } else {
            0
        },
        None => 0,
    }
}

/// Everything in `a` or `b` is in `a + b`.
proof fn lemma_in_concat(a: Seq<Seq<char>>, b: Seq<Seq<char>>)
    ensures
        forall|x: Seq<char>| a.contains(x) ==> #[trigger] (a + b).contains(x),
        forall|x: Seq<char>| b.contains(x) ==> #[trigger] (a + b).contains(x),
{
    assert forall|x: Seq<char>| a.contains(x) implies #[trigger] (a + b).contains(x) by {
        let j = choose|j: int| 0 <= j < a.len() && a[j] == x;
        assert((a + b)[j] == x);
    }
    assert forall|x: Seq<char>| b.contains(x) implies #[trigger] (a + b).contains(x) by {
        let j = choose|j: int| 0 <= j < b.len() && b[j] == x;
        assert((a + b)[a.len() + j] == x);
    }
}

/// The package summary lists every manager with packages, as
/// `"<count> (<manager>)"` (snap's count less its header line), and
/// nothing else: it has one part per such manager, so it is empty (and
/// the summary `None`) exactly when no manager has packages.
pub proof fn lemma_summary_lists_every_manager(c: PackageCounts)
    ensures
        summary_parts(c).len() == counted(c.rpm) + counted(c.dpkg) + counted(c.pacman) + counted(c.portage)
            + counted(c.xbps) + counted(c.apk) + counted(c.eopkg) + counted(c.nix) + counted(c.flatpak)
            + (match c.snap {
            Some(k) => if k > 1 {
                1int
            } else {
                0int
            },
            None => 0int,
        }) + counted(c.brew) + counted(c.brew_cask),
        c.rpm matches Some(k) ==> (k > 0 ==> summary_parts(c).contains(decimal(k as nat) + " ("@ + "rpm"@ + ")"@)),
        c.dpkg matches Some(k) ==> (k > 0 ==> summary_parts(c).contains(decimal(k as nat) + " ("@ + "dpkg"@ + ")"@)),
        c.pacman matches Some(k) ==> (k > 0 ==> summary_parts(c).contains(decimal(k as nat) + " ("@ + "pacman"@ + ")"@)),
        c.portage matches Some(k) ==> (k > 0 ==> summary_parts(c).contains(decimal(k as nat) + " ("@ + "portage"@ + ")"@)),
        c.xbps matches Some(k) ==> (k > 0 ==> summary_parts(c).contains(decimal(k as nat) + " ("@ + "xbps"@ + ")"@)),
        c.apk matches Some(k) ==> (k > 0 ==> summary_parts(c).contains(decimal(k as nat) + " ("@ + "apk"@ + ")"@)),
        c.eopkg matches Some(k) ==> (k > 0 ==> summary_parts(c).contains(decimal(k as nat) + " ("@ + "eopkg"@ + ")"@)),
        c.nix matches Some(k) ==> (k > 0 ==> summary_parts(c).contains(decimal(k as nat) + " ("@ + "nix"@ + ")"@)),
        c.flatpak matches Some(k) ==> (k > 0 ==> summary_parts(c).contains(decimal(k as nat) + " ("@ + "flatpak"@ + ")"@)),
        c.snap matches Some(k) ==> (k > 1 ==> summary_parts(c).contains(decimal((k - 1) as nat) + " ("@ + "snap"@ + ")"@)),
        c.brew matches Some(k) ==> (k > 0 ==> summary_parts(c).contains(decimal(k as nat) + " ("@ + "brew"@ + ")"@)),
        c.brew_cask matches Some(k) ==> (k > 0 ==> summary_parts(c).contains(decimal(k as nat) + " ("@ + "brew-cask"@ + ")"@)),
{
    let snap = match c.snap {
        Some(k) => Some(minus_one(k)),
        None => None,
    };
    let s1 = part(c.rpm, "rpm"@);
    let s2 = s1 + part(c.dpkg, "dpkg"@);
    let s3 = s2 + part(c.pacman, "pacman"@);
    let s4 = s3 + part(c.portage, "portage"@);
    let s5 = s4 + part(c.xbps, "xbps"@);
    let s6 = s5 + part(c.apk, "apk"@);
    let s7 = s6 + part(c.eopkg, "eopkg"@);
    let s8 = s7 + part(c.nix, "nix"@);
    let s9 = s8 + part(c.flatpak, "flatpak"@);
    let s10 = s9 + part(snap, "snap"@);
    let s11 = s10 + part(c.brew, "brew"@);
    let s12 = s11 + part(c.brew_cask, "brew-cask"@);
    assert(s12 == summary_parts(c));
    lemma_in_concat(s1, part(c.dpkg, "dpkg"@));
    lemma_in_concat(s2, part(c.pacman, "pacman"@));
    lemma_in_concat(s3, part(c.portage, "portage"@));
    lemma_in_concat(s4, part(c.xbps, "xbps"@));
    lemma_in_concat(s5, part(c.apk, "apk"@));
    lemma_in_concat(s6, part(c.eopkg, "eopkg"@));
    lemma_in_concat(s7, part(c.nix, "nix"@));
    lemma_in_concat(s8, part(c.flatpak, "flatpak"@));
    lemma_in_concat(s9, part(snap, "snap"@));
    lemma_in_concat(s10, part(c.brew, "brew"@));
    lemma_in_concat(s11, part(c.brew_cask, "brew-cask"@));
    lemma_part_holds(c.rpm, "rpm"@);
    lemma_part_holds(c.dpkg, "dpkg"@);
    lemma_part_holds(c.pacman, "pacman"@);
    lemma_part_holds(c.portage, "portage"@);
    lemma_part_holds(c.xbps, "xbps"@);
    lemma_part_holds(c.apk, "apk"@);
    lemma_part_holds(c.eopkg, "eopkg"@);
    lemma_part_holds(c.nix, "nix"@);
    lemma_part_holds(c.flatpak, "flatpak"@);
    lemma_part_holds(snap, "snap"@);
    lemma_part_holds(c.brew, "brew"@);
    lemma_part_holds(c.brew_cask, "brew-cask"@);
}

/// The part of a manager with packages holds its count and name.
proof fn lemma_part_holds(count: Option<usize>, name: Seq<char>)
    ensures
        part(count, name).len() == counted(count),
        count matches Some(k) ==> (k > 0 ==> part(count, name).contains(decimal(k as nat) + " ("@ + name + ")"@)),
{
    if let Some(k) = count {
        if k > 0 {
            assert(part(count, name)[0] == decimal(k as nat) + " ("@ + name + ")"@);
        }
    }
}

} // verus!
