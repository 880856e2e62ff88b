//! The disk lines of the system overview: one line per real disk, the
//! largest first.
use vstd::prelude::*;
use crate::format::{bytes_text, format_bytes};
use crate::hardware::{should_skip_fs, skipped_fs};
use crate::strings::{
    chars_of, decimal, eq_chars, push_decimal, push_str, push_range, string_of, trim, trim_bounds,
};

verus! {

/// What the overview shows of one mounted disk. `used_pct` is the used
/// share of the space in percent, rounded to a whole number.
#[derive(Clone, Debug)]
pub struct DiskUsage {
    pub total: u64,
    pub available: u64,
    pub file_system: String,
    pub used_pct: u64,
}

/// The used space: the total less the available space, or 0.
pub open spec fn used_space(d: DiskUsage) -> nat {
    if d.available <= d.total {
        (d.total - d.available) as nat
    } else {
        0
    }
}

/// A disk that is shown: it has space and a real file system.
pub open spec fn shown_disk(d: DiskUsage) -> bool {
    d.total != 0 && !skipped_fs(d.file_system@)
}

/// The line for a disk: `<used> / <total> (<pct>%)`, then ` - <fs>` when
/// the file system has a name.
pub open spec fn disk_line(d: DiskUsage) -> Seq<char> {
    let fs = trim(d.file_system@);
    bytes_text(used_space(d)) + " / "@ + bytes_text(d.total as nat) + " ("@ + decimal(
        d.used_pct as nat,
    ) + "%)"@ + if fs.len() > 0 {
        " - "@ + fs
    } else {
        Seq::empty()
    }
}

/// A disk line with the size it is ordered by.
pub type DiskEntry = (u64, Seq<char>);

/// Whether `line` is already among the entries.
pub open spec fn has_line(es: Seq<DiskEntry>, line: Seq<char>) -> bool {
    exists|i: int| 0 <= i < es.len() && (#[trigger] es[i]).1 == line
}

/// The entries of the shown disks, in order, each line once (a disk whose
/// line was seen already is left out).
pub open spec fn disk_entries(ds: Seq<DiskUsage>) -> Seq<DiskEntry>
    decreases ds.len(),
{
    if ds.len() == 0 {
        Seq::empty()
    } else {
        let es = disk_entries(ds.drop_last());
        let d = ds.last();
        if shown_disk(d) && !has_line(es, disk_line(d)) {
            es.push((d.total, disk_line(d)))
        } else {
            es
        }
    }
}

/// `x` put into the list `s` (ordered by size, largest first) after every
/// entry at least as large.
pub open spec fn insert_desc(s: Seq<DiskEntry>, x: DiskEntry) -> Seq<DiskEntry>
    decreases s.len(),
{
    if s.len() == 0 {
        seq![x]
    } else if s.last().0 >= x.0 {
        s.push(x)
    } else {
        insert_desc(s.drop_last(), x).push(s.last())
    }
}

/// The entries ordered by size, largest first; entries of the same size
/// keep their order (a stable sort).
pub open spec fn sort_desc(es: Seq<DiskEntry>) -> Seq<DiskEntry>
    decreases es.len(),
{
    if es.len() == 0 {
        Seq::empty()
    } else {
        insert_desc(sort_desc(es.drop_last()), es.last())
    }
}

proof fn lemma_insert_desc(s: Seq<DiskEntry>, x: DiskEntry, j: int)
    requires
        0 <= j <= s.len(),
        forall|k: int| j <= k < s.len() ==> (#[trigger] s[k]).0 < x.0,
        j == 0 || s[j - 1].0 >= x.0,
    ensures
        insert_desc(s, x) == s.take(j) + seq![x] + s.skip(j),
    decreases s.len(),
{
    if j == s.len() {
        assert(s.take(j) =~= s);
        assert(s.skip(j) =~= Seq::<DiskEntry>::empty());
        if s.len() == 0 {
            assert(s.take(j) + seq![x] + s.skip(j) =~= seq![x]);
        } else {
            assert(s.take(j) + seq![x] + s.skip(j) =~= s.push(x));
        }
    } else {
        let t = s.drop_last();
        assert(s.last().0 < x.0);
        assert forall|k: int| j <= k < t.len() implies (#[trigger] t[k]).0 < x.0 by {
            assert(t[k] == s[k]);
        }
        lemma_insert_desc(t, x, j);
        assert(t.take(j) =~= s.take(j));
        assert(t.skip(j).push(s.last()) =~= s.skip(j));
        assert((t.take(j) + seq![x] + t.skip(j)).push(s.last()) =~= s.take(j) + seq![x] + s.skip(j));
    }
}

/// The lines of the entries.
pub open spec fn entry_lines(es: Seq<DiskEntry>) -> Seq<Seq<char>> {
    es.map_values(|e: DiskEntry| e.1)
}

/// The line for one disk.
fn disk_line_chars(d: &DiskUsage) -> (r: Vec<char>)
    ensures
        r@ == disk_line(*d),
{
    let used = if d.available <= d.total {
        d.total - d.available
    } else {
        0
    };
    let mut out = chars_of(format_bytes(used).as_str());
    push_str(&mut out, " / ");
    let total_text = format_bytes(d.total);
    push_str(&mut out, total_text.as_str());
    push_str(&mut out, " (");
    push_decimal(&mut out, d.used_pct);
    push_str(&mut out, "%)");
    let fs = chars_of(d.file_system.as_str());
    let (a, b) = trim_bounds(&fs);
    if a < b {
        push_str(&mut out, " - ");
        push_range(&mut out, &fs, a, b);
    }
    assert(out@ =~= disk_line(*d));
    out
}

/// Whether `line` is among the lines kept so far.
fn seen_line(lines: &Vec<Vec<char>>, line: &Vec<char>) -> (r: bool)
    ensures
        r == exists|i: int| 0 <= i < lines.len() && (#[trigger] lines@[i])@ == line@,
{
    let mut i: usize = 0;
    while i < lines.len()
        invariant
            i <= lines.len(),
            forall|k: int| 0 <= k < i ==> (#[trigger] lines@[k])@ != line@,
        decreases lines.len() - i,
    {
        if eq_chars(&lines[i], line) {
            return true;
        }
        i += 1;
    }
    false
}

/// The overview lines of the disks, largest first: one line per disk with
/// space and a real file system (see `disk_line`), each line once.
pub fn disk_summary_lines(disks: &Vec<DiskUsage>) -> (r: Vec<String>)
    ensures
        r@.map_values(|s: String| s@) == entry_lines(sort_desc(disk_entries(disks@))),
{
    // The entries in disk order.
    let mut totals: Vec<u64> = Vec::new();
    let mut lines: Vec<Vec<char>> = Vec::new();
    let mut i: usize = 0;
    while i < disks.len()
        invariant
            i <= disks.len(),
            totals.len() == lines.len(),
            disk_entries(disks@.take(i as int)).len() == lines.len(),
            forall|k: int|
                0 <= k < lines.len() ==> #[trigger] disk_entries(disks@.take(i as int))[k] == (
                    totals@[k],
                    lines@[k]@,
                ),
        decreases disks.len() - i,
    {
        let ghost es = disk_entries(disks@.take(i as int));
        assert(disks@.take(i + 1).drop_last() =~= disks@.take(i as int));
        assert(disks@.take(i + 1).last() == disks@[i as int]);
        let d = &disks[i];
        if d.total != 0 && !should_skip_fs(d.file_system.as_str()) {
            let line = disk_line_chars(d);
            let seen = seen_line(&lines, &line);
            if seen {
                assert(has_line(es, disk_line(*d))) by {
                    let w = choose|k: int| 0 <= k < lines.len() && (#[trigger] lines@[k])@ == line@;
                    assert(es[w].1 == line@);
                }
            } else {
                assert(!has_line(es, disk_line(*d))) by {
                    if has_line(es, disk_line(*d)) {
                        let w = choose|k: int| 0 <= k < es.len() && (#[trigger] es[k]).1 == disk_line(*d);
                        assert(lines@[w]@ == line@);
                    }
                }
                totals.push(d.total);
                lines.push(line);
            }
        }
        i += 1;
    }
    assert(disks@.take(i as int) =~= disks@);
    let ghost es = disk_entries(disks@);
    // A stable insertion sort, largest first.
    let mut st: Vec<u64> = Vec::new();
    let mut sl: Vec<Vec<char>> = Vec::new();
    let mut n: usize = 0;
    while n < lines.len()
        invariant
            n <= lines.len() == totals.len(),
            es.len() == lines.len(),
            forall|k: int| 0 <= k < lines.len() ==> #[trigger] es[k] == (totals@[k], lines@[k]@),
            st.len() == sl.len(),
            sort_desc(es.take(n as int)).len() == sl.len(),
            forall|k: int|
                0 <= k < sl.len() ==> #[trigger] sort_desc(es.take(n as int))[k] == (st@[k], sl@[k]@),
        decreases lines.len() - n,
    {
        let ghost s = sort_desc(es.take(n as int));
        let x = totals[n];
        let mut j: usize = st.len();
        while j > 0 && st[j - 1] < x
            invariant
                j <= st.len() == sl.len() == s.len(),
                forall|k: int| 0 <= k < sl.len() ==> #[trigger] s[k] == (st@[k], sl@[k]@),
                forall|k: int| j <= k < s.len() ==> (#[trigger] s[k]).0 < x,
            decreases j,
        {
            assert(s[j - 1] == (st@[j - 1], sl@[j - 1]@));
            j -= 1;
        }
        assert(j == 0 || s[j - 1].0 >= x) by {
            if j > 0 {
                assert(s[j - 1] == (st@[j - 1], sl@[j - 1]@));
            }
        }
        let ghost e = es[n as int];
        assert(e == (x, lines@[n as int]@));
        proof {
            lemma_insert_desc(s, e, j as int);
        }
        assert(es.take(n + 1).drop_last() =~= es.take(n as int));
        assert(es.take(n + 1).last() == e);
        let ghost old_st = st@;
        let ghost old_sl = sl@;
        st.insert(j, x);
        sl.insert(j, lines[n].clone());
        let ghost t = sort_desc(es.take(n + 1));
        assert(t == s.take(j as int) + seq![e] + s.skip(j as int));
        assert forall|k: int| 0 <= k < sl.len() implies #[trigger] t[k] == (st@[k], sl@[k]@) by {
            if k < j {
                assert(st@[k] == old_st[k]);
                assert(sl@[k] == old_sl[k]);
            } else if k > j {
                assert(st@[k] == old_st[k - 1]);
                assert(sl@[k] == old_sl[k - 1]);
            }
        }
        n += 1;
    }
    assert(es.take(n as int) =~= es);
    // The lines in that order.
    let mut r: Vec<String> = Vec::new();
    let mut k: usize = 0;
    while k < sl.len()
        invariant
            k <= sl.len(),
            sort_desc(es).len() == sl.len(),
            forall|m: int| 0 <= m < sl.len() ==> #[trigger] sort_desc(es)[m] == (st@[m], sl@[m]@),
            r@.map_values(|s: String| s@) == entry_lines(sort_desc(es)).take(k as int),
        decreases sl.len() - k,
    {
        let s = string_of(&sl[k]);
        let ghost before = r@.map_values(|s: String| s@);
        r.push(s);
        assert(sort_desc(es)[k as int] == (st@[k as int], sl@[k as int]@));
        let ghost el = entry_lines(sort_desc(es));
        assert(el[k as int] == sl@[k as int]@);
        assert(r@.map_values(|s: String| s@) =~= before.push(sl@[k as int]@));
        assert(el.take(k + 1) =~= el.take(k as int).push(el[k as int]));
        assert(r@.map_values(|s: String| s@) =~= entry_lines(sort_desc(es)).take(k + 1));
        k += 1;
    }
    assert(entry_lines(sort_desc(es)).take(k as int) =~= entry_lines(sort_desc(es)));
    r
}


/// Entries ordered by size, largest first.
pub open spec fn largest_first(s: Seq<DiskEntry>) -> bool {
    forall|i: int, j: int| 0 <= i < j < s.len() ==> (#[trigger] s[i]).0 >= (#[trigger] s[j]).0
}

proof fn lemma_insert_desc_sorted(s: Seq<DiskEntry>, x: DiskEntry)
    requires
        largest_first(s),
    ensures
        largest_first(insert_desc(s, x)),
        insert_desc(s, x).to_multiset() == s.to_multiset().insert(x),
    decreases s.len(),
{
    broadcast use vstd::seq_lib::group_to_multiset_ensures;

    if s.len() == 0 {
        assert(seq![x] =~= Seq::<DiskEntry>::empty().push(x));
    } else if s.last().0 >= x.0 {
        assert forall|i: int, j: int| 0 <= i < j < s.push(x).len() implies (#[trigger] s.push(x)[i]).0
            >= (#[trigger] s.push(x)[j]).0 by {
            if j == s.len() {
                assert(s[i].0 >= s.last().0);
            }
        }
    } else {
        let t = s.drop_last();
        assert forall|i: int, j: int| 0 <= i < j < t.len() implies (#[trigger] t[i]).0 >= (#[trigger] t[j]).0 by {
            assert(t[i] == s[i] && t[j] == s[j]);
        }
        lemma_insert_desc_sorted(t, x);
        let u = insert_desc(t, x);
        assert(s =~= t.push(s.last()));
        assert(u.to_multiset().contains(x));
        assert forall|i: int, j: int| 0 <= i < j < u.push(s.last()).len() implies (#[trigger] u.push(
            s.last(),
        )[i]).0 >= (#[trigger] u.push(s.last())[j]).0 by {
            if j == u.len() {
                let e = u[i];
                assert(u.to_multiset().contains(e));
                assert(t.to_multiset().insert(x).contains(e));
                if e != x {
                    assert(t.to_multiset().contains(e));
                    let k = choose|k: int| 0 <= k < t.len() && t[k] == e;
                    assert(s[k] == e);
                    assert(s[k].0 >= s[s.len() - 1].0);
                }
            }
        }
    }
}

proof fn lemma_sort_desc(es: Seq<DiskEntry>)
    ensures
        largest_first(sort_desc(es)),
        sort_desc(es).to_multiset() == es.to_multiset(),
    decreases es.len(),
{
    broadcast use vstd::seq_lib::group_to_multiset_ensures;

    if es.len() > 0 {
        lemma_sort_desc(es.drop_last());
        lemma_insert_desc_sorted(sort_desc(es.drop_last()), es.last());
        assert(es =~= es.drop_last().push(es.last()));
    }
}

/// The disk lines come largest disk first, and they are exactly the
/// entries of the shown disks, each as often as it was kept.
pub proof fn lemma_disk_lines_largest_first(disks: Seq<DiskUsage>)
    ensures
        largest_first(sort_desc(disk_entries(disks))),
        sort_desc(disk_entries(disks)).to_multiset() == disk_entries(disks).to_multiset(),
{
    lemma_sort_desc(disk_entries(disks));
}

} // verus!
