//! The body of the system panel: the overview or the chosen detail tab,
//! cut to the panel's height.
use vstd::prelude::*;
use crate::hardware::{positives, total};
use crate::icons::IconMode;
use crate::info_tabs::{
    brand_shown, cpu_rows, cpu_tab_lines, disk_tab_lines, disk_tab_rows, freq_shown, memory_rows,
    memory_tab_lines, network_rows, network_tab_lines, shown_rows, tab_views, temp_rows,
    temp_tab_lines, DiskTabRow, MemoryFigures, NetRow, TabLine, TabLineView, TempRow,
};
use crate::overview::{
    line_texts, na_text, overview_rows, push_overview_lines, rows_text, ItemText, OverviewLine,
    SystemOverviewSnapshot,
};
use crate::text::{tr, Language};
use crate::title::SystemTab;
use crate::widgets::{clamp, cores_text};

verus! {

/// A line of the panel body: an overview line or a detail-tab line.
#[derive(Clone, Debug)]
pub enum InfoLine {
    Overview(OverviewLine),
    Tab(TabLine),
}

/// A body line as plain text.
pub enum InfoLineView {
    Overview(Option<ItemText>),
    Tab(TabLineView),
}

/// Body lines as plain text.
pub open spec fn info_views(v: Seq<InfoLine>) -> Seq<InfoLineView> {
    v.map_values(
        |l: InfoLine|
            match l {
                InfoLine::Overview(o) => InfoLineView::Overview(line_texts(seq![o])[0]),
                InfoLine::Tab(t) => InfoLineView::Tab(tab_views(seq![t])[0]),
            },
    )
}

/// What the panel body shows, as found on the machine: the overview
/// snapshot when it was taken, and the figures of each detail tab (the CPU
/// usage and load averages already formatted).
#[derive(Clone, Debug)]
pub struct InfoInputs {
    pub snapshot: Option<SystemOverviewSnapshot>,
    pub cpu_brand: Option<String>,
    pub physical_cores: Option<usize>,
    pub cpu_freqs: Vec<u64>,
    pub cpu_usage: String,
    pub load: String,
    pub memory: MemoryFigures,
    pub disks: Vec<DiskTabRow>,
    pub nets: Vec<NetRow>,
    pub per_second: bool,
    pub temps: Vec<TempRow>,
}

/// The body lines of `tab` before the height cut, for a panel `width`
/// columns wide whose labels take `label_width` columns.
pub open spec fn body_lines(
    tab: SystemTab,
    i: InfoInputs,
    width: nat,
    label_width: nat,
    language: Language,
    mode: IconMode,
) -> Seq<InfoLineView> {
    let na = na_text(language);
    let tabbed = |rows: Seq<crate::info_tabs::TabRow>|
        shown_rows(rows, width, label_width).map_values(|t: TabLineView| InfoLineView::Tab(t));
    match tab {
        SystemTab::Overview => match i.snapshot {
            Some(s) => rows_text(overview_rows(s, na), width, mode).map_values(
                |o: Option<ItemText>| InfoLineView::Overview(o),
            ),
            None => Seq::empty(),
        },
        SystemTab::Cpu => tabbed(
            cpu_rows(
                language,
                brand_shown(
                    match i.cpu_brand {
                        Some(b) => Some(b@),
                        None => None,
                    },
                    language,
                ),
                cores_text(i.physical_cores, i.cpu_freqs.len()),
                freq_shown(i.cpu_freqs@, language),
                i.cpu_usage@,
                i.load@,
            ),
        ),
        SystemTab::Memory => tabbed(memory_rows(language, i.memory)),
        SystemTab::Disks => tabbed(disk_tab_rows(language, i.disks@, na)),
        SystemTab::Network => tabbed(network_rows(language, i.nets@, i.per_second, na)),
        SystemTab::Temps => tabbed(temp_rows(language, i.temps@, na)),
    }
}

/// The panel body of `width` by `height` cells: nothing when it has no
/// room; else the lines of `tab` (labels taking the width kept between 6
/// and 12 columns), as many as fit in the height.
pub open spec fn panel_body(
    tab: SystemTab,
    i: InfoInputs,
    width: nat,
    height: nat,
    language: Language,
    mode: IconMode,
) -> Seq<InfoLineView> {
    if width == 0 || height == 0 {
        Seq::empty()
    } else {
        let lines = body_lines(tab, i, width, clamp(width as int, 6, 12) as nat, language, mode);
        if lines.len() > height {
            lines.take(height as int)
        } else {
            lines
        }
    }
}

/// Wraps overview lines.
fn wrap_overview(v: Vec<OverviewLine>) -> (r: Vec<InfoLine>)
    ensures
        info_views(r@) == line_texts(v@).map_values(|o: Option<ItemText>| InfoLineView::Overview(o)),
{
    let ghost all = line_texts(v@);
    let mut rest = v;
    let mut r: Vec<InfoLine> = Vec::new();
    while rest.len() > 0
        invariant
            all.len() == r.len() + rest.len(),
            info_views(r@) == all.take(r.len() as int).map_values(
                |o: Option<ItemText>| InfoLineView::Overview(o),
            ),
            line_texts(rest@) == all.skip(r.len() as int),
        decreases rest.len(),
    {
        let ghost before = info_views(r@);
        let ghost rv = line_texts(rest@);
        let x = rest.remove(0);
        assert(line_texts(seq![x])[0] == rv[0]);
        assert(line_texts(rest@) =~= rv.drop_first());
        r.push(InfoLine::Overview(x));
        assert(info_views(r@) =~= before.push(InfoLineView::Overview(rv[0])));
        assert(all.take(r.len() as int) =~= all.take(r.len() - 1).push(all[r.len() - 1]));
        assert(all.skip(r.len() as int) =~= all.skip(r.len() - 1).drop_first());
    }
    assert(all.take(r.len() as int) =~= all);
    r
}

/// Wraps detail-tab lines.
fn wrap_tab(v: Vec<TabLine>) -> (r: Vec<InfoLine>)
    ensures
        info_views(r@) == tab_views(v@).map_values(|t: TabLineView| InfoLineView::Tab(t)),
{
    let ghost all = tab_views(v@);
    let mut rest = v;
    let mut r: Vec<InfoLine> = Vec::new();
    while rest.len() > 0
        invariant
            all.len() == r.len() + rest.len(),
            info_views(r@) == all.take(r.len() as int).map_values(|t: TabLineView| InfoLineView::Tab(t)),
            tab_views(rest@) == all.skip(r.len() as int),
        decreases rest.len(),
    {
        let ghost before = info_views(r@);
        let ghost rv = tab_views(rest@);
        let x = rest.remove(0);
        assert(tab_views(seq![x])[0] == rv[0]);
        assert(tab_views(rest@) =~= rv.drop_first());
        r.push(InfoLine::Tab(x));
        assert(info_views(r@) =~= before.push(InfoLineView::Tab(rv[0])));
        assert(all.take(r.len() as int) =~= all.take(r.len() - 1).push(all[r.len() - 1]));
        assert(all.skip(r.len() as int) =~= all.skip(r.len() - 1).drop_first());
    }
    assert(all.take(r.len() as int) =~= all);
    r
}

/// The body of the system panel, `width` by `height` cells, showing `tab`.
pub fn info_body_lines(
    tab: SystemTab,
    i: &InfoInputs,
    width: u16,
    height: u16,
    language: Language,
    icon_mode: IconMode,
) -> (r: Vec<InfoLine>)
    requires
        tab == SystemTab::Cpu ==> total(positives(i.cpu_freqs@)) <= u64::MAX,
    ensures
        info_views(r@) == panel_body(tab, *i, width as nat, height as nat, language, icon_mode),
{
    if width == 0 || height == 0 {
        let r: Vec<InfoLine> = Vec::new();
        assert(info_views(r@) =~= Seq::<InfoLineView>::empty());
        return r;
    }
    let w = width as usize;
    let label_width = crate::widgets::label_width(w);
    let na = tr(language, "n/a", "н/д");
    let mut lines = match tab {
        SystemTab::Overview => match &i.snapshot {
            Some(s) => wrap_overview(push_overview_lines(s, w, icon_mode, na)),
            None => Vec::new(),
        },
        SystemTab::Cpu => {
            let brand = match &i.cpu_brand {
                Some(b) => Some(b.as_str()),
                None => None,
            };
            wrap_tab(
                cpu_tab_lines(
                    language,
                    w,
                    label_width,
                    brand,
                    i.physical_cores,
                    &i.cpu_freqs,
                    i.cpu_usage.as_str(),
                    i.load.as_str(),
                ),
            )
        },
        SystemTab::Memory => wrap_tab(memory_tab_lines(language, w, label_width, &i.memory)),
        SystemTab::Disks => wrap_tab(disk_tab_lines(language, w, label_width, &i.disks, na)),
        SystemTab::Network => wrap_tab(network_tab_lines(language, w, label_width, &i.nets, i.per_second, na)),
        SystemTab::Temps => wrap_tab(temp_tab_lines(language, w, label_width, &i.temps, na)),
    };
    let ghost all = body_lines(tab, *i, w as nat, label_width as nat, language, icon_mode);
    assert(info_views(lines@) =~= all);
    if lines.len() > height as usize {
        lines.truncate(height as usize);
        assert(info_views(lines@) =~= all.take(height as int));
    }
    lines
}


/// The body never has more lines than the panel has rows.
pub proof fn lemma_panel_body_fits(
    tab: SystemTab,
    i: InfoInputs,
    width: nat,
    height: nat,
    language: Language,
    mode: IconMode,
)
    ensures
        panel_body(tab, i, width, height, language, mode).len() <= height,
{
}

} // verus!
