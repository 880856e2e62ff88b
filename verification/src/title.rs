//! The title bar of the system panel: the panel's name, its tabs as far as
//! they fit, and an update button pushed to the right edge, with the screen
//! regions a click on a tab or on the button hits.
use vstd::prelude::*;
use crate::format::{fit_text, fit_text_spec, text_width, unicode_str_width};
use crate::strings::{chars_of, push_str, string_of};
use crate::layout::{halves_extents, inner_area, panel_inner, piece_within, sat_sub, split_answer, split_columns, Area, Extent};
use crate::text::{tr, Language};

verus! {

/// The tabs of the system panel.
#[derive(Clone, Copy, Debug, PartialEq, Eq, Structural)]
pub enum SystemTab {
    Overview,
    Cpu,
    Memory,
    Disks,
    Network,
    Temps,
}

/// The label of a tab in the title bar.
pub open spec fn tab_text(tab: SystemTab, language: Language) -> Seq<char> {
    match language {
        Language::English => match tab {
            SystemTab::Overview => "Main"@,
            SystemTab::Cpu => "CPU"@,
            SystemTab::Memory => "Mem"@,
            SystemTab::Disks => "Disk"@,
            SystemTab::Network => "Net"@,
            SystemTab::Temps => "Temp"@,
        },
        Language::Russian => match tab {
            SystemTab::Overview => "Основное"@,
            SystemTab::Cpu => "CPU"@,
            SystemTab::Memory => "Пам"@,
            SystemTab::Disks => "Диск"@,
            SystemTab::Network => "Сеть"@,
            SystemTab::Temps => "Темп"@,
        },
    }
}

/// The label of a tab in the title bar.
pub fn tab_label(tab: SystemTab, language: Language) -> (r: &'static str)
    ensures
        r@ == tab_text(tab, language),
{
    match tab {
        SystemTab::Overview => tr(language, "Main", "Основное"),
        SystemTab::Cpu => tr(language, "CPU", "CPU"),
        SystemTab::Memory => tr(language, "Mem", "Пам"),
        SystemTab::Disks => tr(language, "Disk", "Диск"),
        SystemTab::Network => tr(language, "Net", "Сеть"),
        SystemTab::Temps => tr(language, "Temp", "Темп"),
    }
}

/// The tabs in the order the bar shows them.
pub open spec fn all_tabs() -> Seq<SystemTab> {
    seq![
        SystemTab::Overview,
        SystemTab::Cpu,
        SystemTab::Memory,
        SystemTab::Disks,
        SystemTab::Network,
        SystemTab::Temps,
    ]
}

/// How a piece of the title bar is drawn.
#[derive(Clone, Copy, Debug, PartialEq, Eq)]
pub enum TitleStyle {
    Title,
    Separator,
    ActiveTab,
    InactiveTab,
    Update,
    Plain,
}

/// A piece of the title bar.
#[derive(Clone, Debug)]
pub struct TitleSpan {
    pub text: String,
    pub style: TitleStyle,
}

/// The screen cells of a clickable part of the title bar: row `y`,
/// columns `x..x + width`.
#[derive(Clone, Copy, Debug, PartialEq, Eq)]
pub struct Region {
    pub x: u16,
    pub y: u16,
    pub width: u16,
}

/// The title bar: its pieces, the region of each tab shown, and the region
/// of the update button when it is shown.
#[derive(Clone, Debug)]
pub struct TitleBar {
    pub spans: Vec<TitleSpan>,
    pub tab_regions: Vec<(SystemTab, Region)>,
    pub update_region: Option<Region>,
}

/// A title-bar piece as plain values.
pub type SpanText = (Seq<char>, TitleStyle);

/// The pieces as plain values.
pub open spec fn span_texts(v: Seq<TitleSpan>) -> Seq<SpanText> {
    v.map_values(|s: TitleSpan| (s.text@, s.style))
}

/// `a + b` within `u16`, or `u16::MAX` (`u16::saturating_add`).
pub open spec fn sat16(a: int, b: int) -> int {
    if a + b > u16::MAX {
        u16::MAX as int
    } else {
        a + b
    }
}

/// `text` with a space on each side.
pub open spec fn padded(text: Seq<char>) -> Seq<char> {
    " "@ + text + " "@
}

/// The tabs from index `k` on that still fit, with `used` columns taken
/// and the next tab starting at screen column `x`: the pieces, the regions
/// and the columns taken at the end. A tab that does not fit ends the run.
pub open spec fn tabs_from(
    k: int,
    used: int,
    x: int,
    y: int,
    inner: int,
    active: SystemTab,
    language: Language,
) -> (Seq<SpanText>, Seq<(SystemTab, Region)>, int)
    decreases 6 - k,
{
    if k < 0 || k >= 6 {
        (Seq::empty(), Seq::empty(), used)
    } else {
        let tab = all_tabs()[k];
        let text = padded(tab_text(tab, language));
        let w = unicode_str_width(text) as int;
        if used + w > inner {
            (Seq::empty(), Seq::empty(), used)
        } else {
            let style = if tab == active {
                TitleStyle::ActiveTab
            } else {
                TitleStyle::InactiveTab
            };
            let (spans, regions, end) = tabs_from(
                k + 1,
                used + w,
                sat16(x, w),
                y,
                inner,
                active,
                language,
            );
            (
                seq![(text, style)] + spans,
                seq![(tab, Region { x: x as u16, y: y as u16, width: w as u16 })] + regions,
                end,
            )
        }
    }
}

/// The columns inside the panel's border.
pub open spec fn inner_width(area_width: int) -> int {
    if area_width >= 2 {
        area_width - 2
    } else {
        0
    }
}

/// The title bar of a panel `area_width` columns wide whose top-left corner
/// is at `(area_x, area_y)`: nothing when there is no room inside the
/// border; else the title ` System ` cut to the room; then, when they fit,
/// ` | ` and the tabs (` <label> `, the active one marked) as far as they
/// fit; then, when it fits with at least one column to spare, blank space
/// and the ` Update ` button at the right edge.
pub open spec fn title_bar(
    area_x: int,
    area_y: int,
    area_width: int,
    active: SystemTab,
    language: Language,
) -> (Seq<SpanText>, Seq<(SystemTab, Region)>, Option<Region>) {
    let inner = inner_width(area_width);
    if inner == 0 {
        (seq![(Seq::<char>::empty(), TitleStyle::Plain)], Seq::empty(), None)
    } else {
        let title = fit_text_spec(
            padded(
                match language {
                    Language::English => "System"@,
                    Language::Russian => "Система"@,
                },
            ),
            inner as nat,
        );
        let tw = unicode_str_width(title) as int;
        let sw = unicode_str_width(" | "@) as int;
        if tw + sw > inner {
            (seq![(title, TitleStyle::Title)], Seq::empty(), None)
        } else {
            let used = tw + sw;
            let x0 = sat16(sat16(area_x, 1), used);
            let (tab_spans, regions, end) = tabs_from(0, used, x0, area_y, inner, active, language);
            let head = seq![(title, TitleStyle::Title), (" | "@, TitleStyle::Separator)] + tab_spans;
            let update = padded(
                match language {
                    Language::English => "Update"@,
                    Language::Russian => "Обновить"@,
                },
            );
            let uw = unicode_str_width(update) as int;
            if end + uw < inner {
                let spacer = inner - (end + uw);
                (
                    head + seq![
                        (Seq::new(spacer as nat, |_i: int| ' '), TitleStyle::Plain),
                        (update, TitleStyle::Update),
                    ],
                    regions,
                    Some(
                        Region {
                            x: sat16(sat16(sat16(area_x, 1), end), spacer) as u16,
                            y: area_y as u16,
                            width: uw as u16,
                        },
                    ),
                )
            } else {
                (head, regions, None)
            }
        }
    }
}

/// `a + b` within `u16`.
fn add16(a: u16, b: u16) -> (r: u16)
    ensures
        r == sat16(a as int, b as int),
{
    match a.checked_add(b) {
        Some(s) => s,
        None => u16::MAX,
    }
}

/// ` text `.
fn padded_string(text: &str) -> (r: String)
    ensures
        r@ == padded(text@),
{
    let mut v = chars_of(" ");
    push_str(&mut v, text);
    push_str(&mut v, " ");
    string_of(&v)
}

/// The title bar of the system panel.
#[verifier::rlimit(40)]
pub fn system_title_line(area_x: u16, area_y: u16, area_width: u16, active: SystemTab, language: Language) -> (r: TitleBar)
    ensures
        (span_texts(r.spans@), r.tab_regions@, r.update_region) == title_bar(
            area_x as int,
            area_y as int,
            area_width as int,
            active,
            language,
        ),
{
    let inner = area_width.saturating_sub(2) as usize;
    let mut spans: Vec<TitleSpan> = Vec::new();
    let mut regions: Vec<(SystemTab, Region)> = Vec::new();
    if inner == 0 {
        spans.push(TitleSpan { text: string_of(&Vec::new()), style: TitleStyle::Plain });
        assert(span_texts(spans@) =~= seq![(Seq::<char>::empty(), TitleStyle::Plain)]);
        return TitleBar { spans, tab_regions: regions, update_region: None };
    }
    let title_label = tr(language, "System", "Система");
    let title = fit_text(padded_string(title_label).as_str(), inner);
    let tw = text_width(title.as_str());
    let sep = string_of(&chars_of(" | "));
    let sw = text_width(sep.as_str());
    let ghost title_v = title@;
    spans.push(TitleSpan { text: title, style: TitleStyle::Title });
    if tw as u128 + sw as u128 > inner as u128 {
        assert(span_texts(spans@) =~= seq![(title_v, TitleStyle::Title)]);
        return TitleBar { spans, tab_regions: regions, update_region: None };
    }
    spans.push(TitleSpan { text: sep, style: TitleStyle::Separator });
    let mut used: usize = tw + sw;
    let x0 = add16(add16(area_x, 1), used as u16);
    let mut x: u16 = x0;
    let ghost head0 = span_texts(spans@);
    assert(head0 =~= seq![(title_v, TitleStyle::Title), (" | "@, TitleStyle::Separator)]);
    let ghost all = tabs_from(0, used as int, x0 as int, area_y as int, inner as int, active, language);
    let tabs: [SystemTab; 6] = [
        SystemTab::Overview,
        SystemTab::Cpu,
        SystemTab::Memory,
        SystemTab::Disks,
        SystemTab::Network,
        SystemTab::Temps,
    ];
    let mut k: usize = 0;
    while k < 6
        invariant
            k <= 6,
            tabs@ == all_tabs(),
            used <= inner,
            inner <= u16::MAX,
            all == tabs_from(0, tw + sw, x0 as int, area_y as int, inner as int, active, language),
            ({
                let rest = tabs_from(k as int, used as int, x as int, area_y as int, inner as int, active, language);
                &&& all.0 == span_texts(spans@).skip(2) + rest.0
                &&& all.1 == regions@ + rest.1
                &&& all.2 == rest.2
            }),
            span_texts(spans@).take(2) == head0,
            spans.len() >= 2,
        ensures
            all.0 == span_texts(spans@).skip(2),
            all.1 == regions@,
            all.2 == used,
            used <= inner,
            span_texts(spans@).take(2) == head0,
            spans.len() >= 2,
        decreases 6 - k,
    {
        let tab = tabs[k];
        let text = padded_string(tab_label(tab, language));
        let w = text_width(text.as_str());
        if used as u128 + w as u128 > inner as u128 {
            assert(regions@ + Seq::<(SystemTab, Region)>::empty() =~= regions@);
            assert(span_texts(spans@).skip(2) + Seq::<SpanText>::empty() =~= span_texts(spans@).skip(2));
            break;
        }
        let style = if tab == active {
            TitleStyle::ActiveTab
        } else {
            TitleStyle::InactiveTab
        };
        let ghost tv = text@;
        let ghost before = span_texts(spans@);
        let ghost before_r = regions@;
        spans.push(TitleSpan { text, style });
        let reg = Region { x, y: area_y, width: w as u16 };
        regions.push((tab, reg));
        assert(span_texts(spans@) =~= before.push((tv, style)));
        assert(span_texts(spans@).skip(2) =~= before.skip(2).push((tv, style)));
        assert(span_texts(spans@).take(2) =~= before.take(2));
        used = used + w;
        x = add16(x, w as u16);
        k += 1;
    }
    if k == 6 {
        assert(regions@ + Seq::<(SystemTab, Region)>::empty() =~= regions@);
        assert(span_texts(spans@).skip(2) + Seq::<SpanText>::empty() =~= span_texts(spans@).skip(2));
    }
    let update = padded_string(tr(language, "Update", "Обновить"));
    let uw = text_width(update.as_str());
    assert(span_texts(spans@) =~= span_texts(spans@).take(2) + span_texts(spans@).skip(2));
    if (used as u128) + (uw as u128) < inner as u128 {
        let spacer = inner - (used + uw);
        let mut sp: Vec<char> = Vec::new();
        let mut i: usize = 0;
        while i < spacer
            invariant
                i <= spacer,
                sp@ == Seq::new(i as nat, |_k: int| ' '),
            decreases spacer - i,
        {
            sp.push(' ');
            i += 1;
            assert(sp@ =~= Seq::new(i as nat, |_k: int| ' '));
        }
        let ghost before = span_texts(spans@);
        let ghost uv = update@;
        let ghost spv = sp@;
        spans.push(TitleSpan { text: string_of(&sp), style: TitleStyle::Plain });
        spans.push(TitleSpan { text: update, style: TitleStyle::Update });
        assert(span_texts(spans@) =~= before + seq![(spv, TitleStyle::Plain), (uv, TitleStyle::Update)]);
        let rx = add16(add16(add16(area_x, 1), used as u16), spacer as u16);
        let region = Region { x: rx, y: area_y, width: uw as u16 };
        TitleBar { spans, tab_regions: regions, update_region: Some(region) }
    } else {
        TitleBar { spans, tab_regions: regions, update_region: None }
    }
}


proof fn lemma_tabs_from(
    k: int,
    used: int,
    x: int,
    y: int,
    inner: int,
    active: SystemTab,
    language: Language,
    left: int,
)
    requires
        0 <= used <= inner,
        x == left + used,
        left >= 0,
        left + inner <= u16::MAX,
    ensures
        ({
            let (spans, regions, end) = tabs_from(k, used, x, y, inner, active, language);
            &&& used <= end <= inner
            &&& spans.len() == regions.len()
            &&& regions.len() > 0 ==> regions[0].1.x == x
            &&& regions.len() > 0 ==> regions.last().1.x + regions.last().1.width == left + end
            &&& regions.len() == 0 ==> end == used
            &&& forall|j: int|
                0 <= j < regions.len() ==> left <= (#[trigger] regions[j]).1.x && regions[j].1.x
                    + regions[j].1.width <= left + inner
            &&& forall|j: int|
                0 <= j < regions.len() - 1 ==> (#[trigger] regions[j + 1]).1.x == regions[j].1.x
                    + regions[j].1.width
        }),
    decreases 6 - k,
{
    if k < 0 || k >= 6 {
    } else {
        let tab = all_tabs()[k];
        let text = padded(tab_text(tab, language));
        let w = unicode_str_width(text) as int;
        if used + w > inner {
        } else {
            lemma_tabs_from(k + 1, used + w, sat16(x, w), y, inner, active, language, left);
            let (spans, regions, end) = tabs_from(k + 1, used + w, sat16(x, w), y, inner, active, language);
            let style = if tab == active {
                TitleStyle::ActiveTab
            } else {
                TitleStyle::InactiveTab
            };
            let head = seq![(tab, Region { x: x as u16, y: y as u16, width: w as u16 })];
            let all = head + regions;
            assert forall|j: int| 0 <= j < all.len() - 1 implies (#[trigger] all[j + 1]).1.x == all[j].1.x
                + all[j].1.width by {
                if j > 0 {
                    assert(all[j] == regions[j - 1]);
                    assert(all[j + 1] == regions[j]);
                    assert(0 <= j - 1 < regions.len() - 1);
                    assert(regions[(j - 1) + 1].1.x == regions[j - 1].1.x + regions[j - 1].1.width);
                } else {
                    assert(all[0] == head[0]);
                    assert(all[1] == regions[0]);
                    assert(regions[0].1.x == sat16(x, w));
                    assert(x + w <= u16::MAX);
                    assert(all[1].1.x == x + w);
                    assert(all[0].1.x == x);
                    assert(all[0].1.width == w);
                }
            }
            assert forall|j: int| 0 <= j < all.len() implies left <= (#[trigger] all[j]).1.x && all[j].1.x
                + all[j].1.width <= left + inner by {
                if j > 0 {
                    assert(all[j] == regions[j - 1]);
                }
            }
        }
    }
}

/// Inside a panel that ends within the screen's columns, the tabs sit side
/// by side from the first column after ` System | `, each inside the
/// border, and the update button ends at the last column inside the border.
pub proof fn lemma_title_regions(area_x: u16, area_y: u16, area_width: u16, active: SystemTab, language: Language)
    requires
        area_x + area_width <= u16::MAX,
    ensures
        ({
            let (spans, regions, update) = title_bar(area_x as int, area_y as int, area_width as int, active, language);
            let inner = inner_width(area_width as int);
            &&& forall|j: int|
                0 <= j < regions.len() ==> area_x + 1 <= (#[trigger] regions[j]).1.x && regions[j].1.x
                    + regions[j].1.width <= area_x + 1 + inner
            &&& forall|j: int|
                0 <= j < regions.len() - 1 ==> (#[trigger] regions[j + 1]).1.x == regions[j].1.x
                    + regions[j].1.width
            &&& match update {
                Some(u) => u.x + u.width == area_x + 1 + inner,
                None => true,
            }
        }),
{
    let inner = inner_width(area_width as int);
    if inner > 0 {
        let title = fit_text_spec(
            padded(
                match language {
                    Language::English => "System"@,
                    Language::Russian => "Система"@,
                },
            ),
            inner as nat,
        );
        let tw = unicode_str_width(title) as int;
        let sw = unicode_str_width(" | "@) as int;
        if tw + sw <= inner {
            let used = tw + sw;
            let left = area_x + 1;
            lemma_tabs_from(0, used, sat16(sat16(area_x as int, 1), used), area_y as int, inner, active, language, left);
        }
    }
}


/// The part of the system panel below the title row: the inside of the
/// border without its first row; none when the inside is at most one row
/// high or has no columns.
pub open spec fn system_content(area: Area) -> Option<Area> {
    let inner = inner_area(area);
    if inner.width == 0 || inner.height <= 1 {
        None
    } else {
        Some(
            Area {
                x: inner.x,
                y: sat16(inner.y as int, 1) as u16,
                width: inner.width,
                height: (inner.height - 1) as u16,
            },
        )
    }
}

/// The information area inside the right half `right` of the overview:
/// one cell in from its top and left edges.
pub open spec fn info_in(right: Area) -> Area {
    Area {
        x: sat16(right.x as int, 1) as u16,
        y: sat16(right.y as int, 1) as u16,
        width: sat_sub(right.width as int, 1) as u16,
        height: sat_sub(right.height as int, 1) as u16,
    }
}

/// The logo and information areas of the overview from the two halves of
/// the content: the logo takes the left half, the information the right
/// one, one cell in from its top and left edges.
pub fn overview_areas(halves: &Vec<Area>) -> (r: (Option<Area>, Area))
    requires
        halves@.len() == 2,
    ensures
        r == (Some(halves@[0]), info_in(halves@[1])),
{
    let right = halves[1];
    let info = Area {
        x: right.x.saturating_add(1),
        y: right.y.saturating_add(1),
        width: right.width.saturating_sub(1),
        height: right.height.saturating_sub(1),
    };
    (Some(halves[0]), info)
}

/// Where the system panel in `area` draws the logo and the information.
/// On the overview the layout solver splits the content into two halves
/// side by side: the logo takes the left one and the information the
/// right one, one cell in from its top and left edges; on the other tabs
/// the information takes the whole content. Nothing when there is no
/// content area.
pub fn system_areas(area: Area, tab: SystemTab) -> (r: Option<(Option<Area>, Area)>)
    ensures
        match system_content(area) {
            None => r is None,
            Some(content) => r is Some && ({
                let (logo, info) = r->0;
                if tab == SystemTab::Overview {
                    &&& exists|h: Seq<Area>|
                        #[trigger] split_answer(true, halves_extents(), content, h) && logo == Some(h[0])
                            && info == info_in(h[1])
                    &&& logo matches Some(l) && l.y == content.y && l.height == content.height
                    &&& info.y == sat16(content.y as int, 1)
                    &&& info.height == content.height - 1
                } else {
                    logo is None && info == content
                }
            }),
        },
{
    let inner = panel_inner(area);
    if inner.width == 0 || inner.height <= 1 {
        return None;
    }
    let content = Area { x: inner.x, y: inner.y.saturating_add(1), width: inner.width, height: inner.height - 1 };
    if tab == SystemTab::Overview {
        let extents = vec![Extent::Percentage(50), Extent::Percentage(50)];
        assert(extents@ == halves_extents());
        let halves = split_columns(&extents, content);
        assert(piece_within(true, content, halves@[0]));
        assert(piece_within(true, content, halves@[1]));
        let (logo, info) = overview_areas(&halves);
        Some((logo, info))
    } else {
        Some((None, content))
    }
}

} // verus!
