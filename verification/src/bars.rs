//! The summary bar at the top of the screen and the key hints at the
//! bottom: which view is shown, how the process table is ordered and
//! highlighted, and which keys do what in the current view.
use vstd::prelude::*;
use crate::format::{bytes_text, duration_text, format_bytes, format_duration};
use crate::info_tabs::lang_text;
use crate::layout::{piece_within, sat_sub, split_answer, split_rows, Area, Extent};
use crate::strings::{chars_of, decimal, push_decimal, push_str, string_of};
use crate::text::{tr, Language};

verus! {

/// The views of the main screen.
#[derive(Clone, Copy, Debug, PartialEq, Eq, Structural)]
pub enum ViewMode {
    Overview,
    Processes,
    GpuFocus,
    SystemInfo,
    Container,
}

/// Which processes the table highlights.
#[derive(Clone, Copy, Debug, PartialEq, Eq)]
pub enum HighlightMode {
    CurrentUser,
    NonRoot,
    Gui,
}

/// How a piece of a bar is drawn.
#[derive(Clone, Copy, Debug, PartialEq, Eq)]
pub enum BarStyle {
    /// The program's name.
    Title,
    /// A key, or a label before a value.
    Key,
    /// A hint, or a muted note.
    Hint,
    /// A value in the accent colour.
    Accent,
    /// A value in the accent colour when on, muted when off.
    Toggle(bool),
    /// A figure.
    Value,
    /// Plain spacing.
    Plain,
    /// A status message.
    Status,
}

/// A piece of a bar.
#[derive(Clone, Debug)]
pub struct BarSpan {
    pub text: String,
    pub style: BarStyle,
}

/// A bar piece as plain values.
pub type SpanView = (Seq<char>, BarStyle);

/// Bar lines as plain values.
pub open spec fn bar_views(v: Seq<Vec<BarSpan>>) -> Seq<Seq<SpanView>> {
    v.map_values(|l: Vec<BarSpan>| l@.map_values(|s: BarSpan| (s.text@, s.style)))
}

/// What the key hints depend on: the view, whether the process table or
/// the GPU panel is expanded, whether a container is drilled into, and the
/// status message, if any.
#[derive(Clone, Debug)]
pub struct FooterState {
    pub view: ViewMode,
    pub processes_expanded: bool,
    pub gpu_panel_expanded: bool,
    pub container_filter: bool,
    pub status: Option<String>,
}

/// What `enter` does: drill into a container, expand the overview's or the
/// GPU view's panel, or terminate the selected process.
pub open spec fn enter_hint(f: FooterState, language: Language) -> Seq<char> {
    if f.view == ViewMode::Container {
        lang_text(language, "drill"@, "внутрь"@)
    } else if f.view == ViewMode::Overview && !f.processes_expanded {
        lang_text(language, "expand"@, "развернуть"@)
    } else if f.view == ViewMode::GpuFocus && !f.gpu_panel_expanded {
        lang_text(language, "expand"@, "развернуть"@)
    } else {
        lang_text(language, "terminate"@, "завершить"@)
    }
}

/// What `tab` does, when it does anything: select a panel of the overview,
/// or switch the GPU view's panel.
pub open spec fn tab_hint(f: FooterState, language: Language) -> Option<Seq<char>> {
    if f.view == ViewMode::Overview && !f.processes_expanded {
        Some(lang_text(language, "select"@, "выбор"@))
    } else if f.view == ViewMode::GpuFocus && !f.gpu_panel_expanded {
        Some(lang_text(language, "panel"@, "панель"@))
    } else {
        None
    }
}

/// Whether `esc` goes back: in a container, in any view but the overview,
/// or with a panel expanded.
pub open spec fn shows_back(f: FooterState) -> bool {
    f.container_filter || f.view != ViewMode::Overview || (f.view == ViewMode::Overview && f.processes_expanded)
        || (f.view == ViewMode::GpuFocus && f.gpu_panel_expanded)
}

/// ` <hint>  `.
pub open spec fn spaced(hint: Seq<char>) -> Seq<char> {
    " "@ + hint + "  "@
}

/// The key hints: the status message alone when there is one; else the
/// general keys, then the table keys with what `enter`, `tab` and `esc` do
/// in the current view.
pub open spec fn footer_lines(f: FooterState, language: Language) -> Seq<Seq<SpanView>> {
    match f.status {
        Some(s) => seq![seq![(s@, BarStyle::Status)]],
        None => {
            let first = seq![
                ("q/й"@, BarStyle::Key),
                (spaced(lang_text(language, "quit"@, "выход"@)), BarStyle::Hint),
                ("r/к"@, BarStyle::Key),
                (spaced(lang_text(language, "refresh"@, "обновить"@)), BarStyle::Hint),
                ("F2"@, BarStyle::Key),
                (spaced(lang_text(language, "setup"@, "настройки"@)), BarStyle::Hint),
                ("F12"@, BarStyle::Key),
                (" "@ + lang_text(language, "help"@, "справка"@), BarStyle::Hint),
            ];
            let keys = seq![
                ("up/down"@, BarStyle::Key),
                (spaced(lang_text(language, "move"@, "перемест."@)), BarStyle::Hint),
                ("left/right"@, BarStyle::Key),
                (spaced(lang_text(language, "column"@, "колонка"@)), BarStyle::Hint),
                ("space"@, BarStyle::Key),
                (spaced(lang_text(language, "order"@, "порядок"@)), BarStyle::Hint),
                ("enter"@, BarStyle::Key),
                (spaced(enter_hint(f, language)), BarStyle::Hint),
                ("t/е"@, BarStyle::Key),
                (spaced(lang_text(language, "tree"@, "дерево"@)), BarStyle::Hint),
            ];
            let tab = match tab_hint(f, language) {
                Some(t) => seq![("tab"@, BarStyle::Key), (" "@ + t, BarStyle::Hint)],
                None => Seq::empty(),
            };
            let back = if shows_back(f) {
                seq![
                    ("  "@, BarStyle::Hint),
                    ("esc"@, BarStyle::Key),
                    (" "@ + lang_text(language, "back"@, "назад"@), BarStyle::Hint),
                ]
            } else {
                Seq::empty()
            };
            seq![first, keys + tab + back]
        },
    }
}

/// A piece of a bar.
fn piece(text: &str, style: BarStyle) -> (s: BarSpan)
    ensures
        s.text@ == text@,
        s.style == style,
{
    BarSpan { text: string_of(&chars_of(text)), style }
}

/// A piece ` <hint>  `.
fn spaced_piece(hint: &str) -> (s: BarSpan)
    ensures
        s.text@ == spaced(hint@),
        s.style == BarStyle::Hint,
{
    let mut v = chars_of(" ");
    push_str(&mut v, hint);
    push_str(&mut v, "  ");
    BarSpan { text: string_of(&v), style: BarStyle::Hint }
}

/// A piece ` <hint>`.
fn lead_piece(hint: &str, style: BarStyle) -> (s: BarSpan)
    ensures
        s.text@ == " "@ + hint@,
        s.style == style,
{
    let mut v = chars_of(" ");
    push_str(&mut v, hint);
    BarSpan { text: string_of(&v), style }
}

/// The key hints at the bottom of the screen.
pub fn footer(f: &FooterState, language: Language) -> (r: Vec<Vec<BarSpan>>)
    ensures
        bar_views(r@) == footer_lines(*f, language),
{
    match &f.status {
        Some(s) => {
            let r = vec![vec![piece(s.as_str(), BarStyle::Status)]];
            assert(bar_views(r@) =~~= footer_lines(*f, language));
            r
        },
        None => {
            let enter = if f.view == ViewMode::Container {
                tr(language, "drill", "внутрь")
            } else if f.view == ViewMode::Overview && !f.processes_expanded {
                tr(language, "expand", "развернуть")
            } else if f.view == ViewMode::GpuFocus && !f.gpu_panel_expanded {
                tr(language, "expand", "развернуть")
            } else {
                tr(language, "terminate", "завершить")
            };
            let tab = if f.view == ViewMode::Overview && !f.processes_expanded {
                Some(tr(language, "select", "выбор"))
            } else if f.view == ViewMode::GpuFocus && !f.gpu_panel_expanded {
                Some(tr(language, "panel", "панель"))
            } else {
                None
            };
            let first = vec![
                piece("q/й", BarStyle::Key),
                spaced_piece(tr(language, "quit", "выход")),
                piece("r/к", BarStyle::Key),
                spaced_piece(tr(language, "refresh", "обновить")),
                piece("F2", BarStyle::Key),
                spaced_piece(tr(language, "setup", "настройки")),
                piece("F12", BarStyle::Key),
                lead_piece(tr(language, "help", "справка"), BarStyle::Hint),
            ];
            let mut second = vec![
                piece("up/down", BarStyle::Key),
                spaced_piece(tr(language, "move", "перемест.")),
                piece("left/right", BarStyle::Key),
                spaced_piece(tr(language, "column", "колонка")),
                piece("space", BarStyle::Key),
                spaced_piece(tr(language, "order", "порядок")),
                piece("enter", BarStyle::Key),
                spaced_piece(enter),
                piece("t/е", BarStyle::Key),
                spaced_piece(tr(language, "tree", "дерево")),
            ];
            let ghost keys_v = second@.map_values(|s: BarSpan| (s.text@, s.style));
            match tab {
                Some(t) => {
                    second.push(piece("tab", BarStyle::Key));
                    second.push(lead_piece(t, BarStyle::Hint));
                },
                None => {},
            }
            let ghost tab_v = second@.map_values(|s: BarSpan| (s.text@, s.style));
            let back = f.container_filter || f.view != ViewMode::Overview || (f.view == ViewMode::Overview
                && f.processes_expanded) || (f.view == ViewMode::GpuFocus && f.gpu_panel_expanded);
            if back {
                second.push(piece("  ", BarStyle::Hint));
                second.push(piece("esc", BarStyle::Key));
                second.push(lead_piece(tr(language, "back", "назад"), BarStyle::Hint));
            }
            let r = vec![first, second];
            assert(bar_views(r@) =~~= footer_lines(*f, language));
            r
        },
    }
}


/// What the summary bar shows: the view, the highlight mode, the table's
/// order (its column and direction, named), whether the tree is shown, the
/// container drilled into and the process filter, and the figures (the CPU
/// share and the memory and swap shares already formatted).
#[derive(Clone, Debug)]
pub struct HeaderState {
    pub view: ViewMode,
    pub highlight: HighlightMode,
    pub sort_text: String,
    pub tree_view: bool,
    pub container: Option<String>,
    pub process_filter: String,
    pub cpu_pct: String,
    pub uptime_secs: u64,
    pub used_mem: u64,
    pub total_mem: u64,
    pub mem_pct: String,
    pub used_swap: u64,
    pub total_swap: u64,
    pub swap_pct: String,
    pub process_count: usize,
}

/// The name of a view.
pub open spec fn view_text(v: ViewMode, language: Language) -> Seq<char> {
    match v {
        ViewMode::Overview => lang_text(language, "Overview"@, "Обзор"@),
        ViewMode::Processes => lang_text(language, "Processes"@, "Процессы"@),
        ViewMode::GpuFocus => "GPU"@,
        ViewMode::SystemInfo => lang_text(language, "System"@, "Система"@),
        ViewMode::Container => lang_text(language, "Containers"@, "Контейнеры"@),
    }
}

/// The name of a highlight mode.
pub open spec fn highlight_text(h: HighlightMode, language: Language) -> Seq<char> {
    match h {
        HighlightMode::CurrentUser => lang_text(language, "user"@, "польз."@),
        HighlightMode::NonRoot => lang_text(language, "non-root"@, "не-root"@),
        HighlightMode::Gui => "gui"@,
    }
}

/// ` <used> / <total> (<pct>%)  `.
pub open spec fn usage_figure(used: u64, total: u64, pct: Seq<char>) -> Seq<char> {
    " "@ + bytes_text(used as nat) + " / "@ + bytes_text(total as nat) + " ("@ + pct + "%)  "@
}

/// The summary bar: the program's name and the table's order, view and
/// highlight mode, then the tree switch in the process view, the container
/// and the filter when there are any; the CPU share and the uptime; the
/// memory, the swap and the number of processes.
pub open spec fn header_lines(h: HeaderState, language: Language) -> Seq<Seq<SpanView>> {
    let first = seq![
        ("rtop"@, BarStyle::Title),
        ("  "@, BarStyle::Plain),
        (lang_text(language, "system monitor"@, "монитор системы"@), BarStyle::Hint),
        ("  "@, BarStyle::Plain),
        (lang_text(language, "sort "@, "сорт "@), BarStyle::Key),
        (h.sort_text@, BarStyle::Accent),
        ("  "@, BarStyle::Plain),
        (lang_text(language, "view "@, "вид "@), BarStyle::Key),
        (view_text(h.view, language), BarStyle::Accent),
        ("  "@, BarStyle::Plain),
        (lang_text(language, "highlight "@, "подсветка "@), BarStyle::Key),
        (highlight_text(h.highlight, language), BarStyle::Accent),
    ];
    let tree = if h.view == ViewMode::Processes {
        seq![
            ("  "@, BarStyle::Plain),
            (lang_text(language, "tree "@, "дерево "@), BarStyle::Key),
            (
                if h.tree_view {
                    lang_text(language, "on"@, "вкл"@)
                } else {
                    lang_text(language, "off"@, "выкл"@)
                },
                BarStyle::Toggle(h.tree_view),
            ),
        ]
    } else {
        Seq::empty()
    };
    let container = match h.container {
        Some(c) => seq![
            ("  "@, BarStyle::Plain),
            (lang_text(language, "container "@, "контейнер "@), BarStyle::Key),
            (c@, BarStyle::Accent),
        ],
        None => Seq::empty(),
    };
    let filter = if h.process_filter@.len() > 0 {
        seq![
            ("  "@, BarStyle::Plain),
            (lang_text(language, "filter "@, "фильтр "@), BarStyle::Key),
            (h.process_filter@, BarStyle::Accent),
        ]
    } else {
        Seq::empty()
    };
    let second = seq![
        ("CPU"@, BarStyle::Key),
        (" "@ + h.cpu_pct@ + "%  "@, BarStyle::Value),
        (lang_text(language, "Uptime"@, "Аптайм"@), BarStyle::Key),
        (" "@ + duration_text(h.uptime_secs as nat), BarStyle::Value),
    ];
    let third = seq![
        (lang_text(language, "Mem"@, "ОЗУ"@), BarStyle::Key),
        (usage_figure(h.used_mem, h.total_mem, h.mem_pct@), BarStyle::Value),
        ("Swap"@, BarStyle::Key),
        (usage_figure(h.used_swap, h.total_swap, h.swap_pct@), BarStyle::Value),
        (lang_text(language, "Procs"@, "Проц."@), BarStyle::Key),
        (" "@ + decimal(h.process_count as nat), BarStyle::Value),
    ];
    seq![first + tree + container + filter, second, third]
}

/// ` <used> / <total> (<pct>%)  `.
fn usage_piece(used: u64, total: u64, pct: &str) -> (s: BarSpan)
    ensures
        s.text@ == usage_figure(used, total, pct@),
        s.style == BarStyle::Value,
{
    let mut v = chars_of(" ");
    push_str(&mut v, format_bytes(used).as_str());
    push_str(&mut v, " / ");
    push_str(&mut v, format_bytes(total).as_str());
    push_str(&mut v, " (");
    push_str(&mut v, pct);
    push_str(&mut v, "%)  ");
    BarSpan { text: string_of(&v), style: BarStyle::Value }
}

/// The summary bar at the top of the screen.
pub fn header(h: &HeaderState, language: Language) -> (r: Vec<Vec<BarSpan>>)
    ensures
        bar_views(r@) == header_lines(*h, language),
{
    let view = match h.view {
        ViewMode::Overview => tr(language, "Overview", "Обзор"),
        ViewMode::Processes => tr(language, "Processes", "Процессы"),
        ViewMode::GpuFocus => tr(language, "GPU", "GPU"),
        ViewMode::SystemInfo => tr(language, "System", "Система"),
        ViewMode::Container => tr(language, "Containers", "Контейнеры"),
    };
    let highlight = match h.highlight {
        HighlightMode::CurrentUser => tr(language, "user", "польз."),
        HighlightMode::NonRoot => tr(language, "non-root", "не-root"),
        HighlightMode::Gui => tr(language, "gui", "gui"),
    };
    let mut first = vec![
        piece("rtop", BarStyle::Title),
        piece("  ", BarStyle::Plain),
        piece(tr(language, "system monitor", "монитор системы"), BarStyle::Hint),
        piece("  ", BarStyle::Plain),
        piece(tr(language, "sort ", "сорт "), BarStyle::Key),
        piece(h.sort_text.as_str(), BarStyle::Accent),
        piece("  ", BarStyle::Plain),
        piece(tr(language, "view ", "вид "), BarStyle::Key),
        piece(view, BarStyle::Accent),
        piece("  ", BarStyle::Plain),
        piece(tr(language, "highlight ", "подсветка "), BarStyle::Key),
        piece(highlight, BarStyle::Accent),
    ];
    if h.view == ViewMode::Processes {
        first.push(piece("  ", BarStyle::Plain));
        first.push(piece(tr(language, "tree ", "дерево "), BarStyle::Key));
        let state = if h.tree_view {
            tr(language, "on", "вкл")
        } else {
            tr(language, "off", "выкл")
        };
        first.push(piece(state, BarStyle::Toggle(h.tree_view)));
    }
    match &h.container {
        Some(c) => {
            first.push(piece("  ", BarStyle::Plain));
            first.push(piece(tr(language, "container ", "контейнер "), BarStyle::Key));
            first.push(piece(c.as_str(), BarStyle::Accent));
        },
        None => {},
    }
    if chars_of(h.process_filter.as_str()).len() > 0 {
        first.push(piece("  ", BarStyle::Plain));
        first.push(piece(tr(language, "filter ", "фильтр "), BarStyle::Key));
        first.push(piece(h.process_filter.as_str(), BarStyle::Accent));
    }
    let mut cpu = chars_of(" ");
    push_str(&mut cpu, h.cpu_pct.as_str());
    push_str(&mut cpu, "%  ");
    let second = vec![
        piece(tr(language, "CPU", "CPU"), BarStyle::Key),
        BarSpan { text: string_of(&cpu), style: BarStyle::Value },
        piece(tr(language, "Uptime", "Аптайм"), BarStyle::Key),
        lead_piece(format_duration(h.uptime_secs).as_str(), BarStyle::Value),
    ];
    let mut procs = chars_of(" ");
    push_decimal(&mut procs, h.process_count as u64);
    let third = vec![
        piece(tr(language, "Mem", "ОЗУ"), BarStyle::Key),
        usage_piece(h.used_mem, h.total_mem, h.mem_pct.as_str()),
        piece(tr(language, "Swap", "Swap"), BarStyle::Key),
        usage_piece(h.used_swap, h.total_swap, h.swap_pct.as_str()),
        piece(tr(language, "Procs", "Проц."), BarStyle::Key),
        BarSpan { text: string_of(&procs), style: BarStyle::Value },
    ];
    let r = vec![first, second, third];
    assert(bar_views(r@) =~~= header_lines(*h, language));
    r
}


/// The process a termination is asked for: its pid, CPU share (already
/// formatted), memory, name and status.
#[derive(Clone, Debug)]
pub struct ConfirmProcess {
    pub pid: u32,
    pub cpu: String,
    pub mem_bytes: u64,
    pub name: String,
    pub status: String,
}

/// The termination dialog: the question, an empty line, the pid, CPU share
/// and memory, the name, the status, an empty line, and the keys.
pub open spec fn confirm_lines(c: ConfirmProcess, language: Language) -> Seq<Seq<SpanView>> {
    seq![
        seq![(lang_text(language, "Terminate process?"@, "Завершить процесс?"@), BarStyle::Title)],
        Seq::empty(),
        seq![
            ("PID "@, BarStyle::Key),
            (decimal(c.pid as nat), BarStyle::Value),
            ("  "@, BarStyle::Plain),
            ("CPU "@, BarStyle::Key),
            (c.cpu@ + "%"@, BarStyle::Value),
            ("  "@, BarStyle::Plain),
            ("MEM "@, BarStyle::Key),
            (bytes_text(c.mem_bytes as nat), BarStyle::Value),
        ],
        seq![(lang_text(language, "Name "@, "Имя "@), BarStyle::Key), (c.name@, BarStyle::Value)],
        seq![(lang_text(language, "Status "@, "Статус "@), BarStyle::Key), (c.status@, BarStyle::Value)],
        Seq::empty(),
        seq![
            ("Enter"@, BarStyle::Accent),
            (spaced(lang_text(language, "terminate"@, "завершить"@)), BarStyle::Key),
            ("Esc"@, BarStyle::Accent),
            (" "@ + lang_text(language, "cancel"@, "отмена"@), BarStyle::Key),
        ],
    ]
}

/// The termination dialog.
pub fn confirm_dialog(c: &ConfirmProcess, language: Language) -> (r: Vec<Vec<BarSpan>>)
    ensures
        bar_views(r@) == confirm_lines(*c, language),
{
    let mut pid: Vec<char> = Vec::new();
    push_decimal(&mut pid, c.pid as u64);
    let mut cpu = chars_of(c.cpu.as_str());
    push_str(&mut cpu, "%");
    let mut terminate = spaced_piece(tr(language, "terminate", "завершить"));
    terminate.style = BarStyle::Key;
    let r = vec![
        vec![piece(tr(language, "Terminate process?", "Завершить процесс?"), BarStyle::Title)],
        Vec::new(),
        vec![
            piece("PID ", BarStyle::Key),
            BarSpan { text: string_of(&pid), style: BarStyle::Value },
            piece("  ", BarStyle::Plain),
            piece("CPU ", BarStyle::Key),
            BarSpan { text: string_of(&cpu), style: BarStyle::Value },
            piece("  ", BarStyle::Plain),
            piece("MEM ", BarStyle::Key),
            BarSpan { text: format_bytes(c.mem_bytes), style: BarStyle::Value },
        ],
        vec![piece(tr(language, "Name ", "Имя "), BarStyle::Key), piece(c.name.as_str(), BarStyle::Value)],
        vec![piece(tr(language, "Status ", "Статус "), BarStyle::Key), piece(c.status.as_str(), BarStyle::Value)],
        Vec::new(),
        vec![
            piece("Enter", BarStyle::Accent),
            terminate,
            piece("Esc", BarStyle::Accent),
            lead_piece(tr(language, "cancel", "отмена"), BarStyle::Key),
        ],
    ];
    assert(bar_views(r@) =~~= confirm_lines(*c, language));
    r
}


/// The areas of the screen: too small below 60 by 22 cells; else the
/// summary bar, the CPU and memory gauges (on the overview while the
/// process table is not expanded), the main panel, and the key hints.
#[derive(Clone, Copy, Debug, PartialEq, Eq)]
pub enum Screen {
    TooSmall,
    Panels { header: Area, stats: Option<Area>, main: Area, footer: Area },
}

/// The height of the gauges on the overview: what the screen leaves after
/// the bars (5 and 4 rows) and 8 rows for the process table, kept between
/// 5 and 9.
pub open spec fn stats_height(height: int) -> int {
    let avail = if height >= 17 {
        height - 17
    } else {
        0
    };
    if avail < 5 {
        5
    } else if avail > 9 {
        9
    } else {
        avail
    }
}

/// The height of the gauges on the overview.
pub fn stats_rows(height: u16) -> (h: u16)
    ensures
        h == stats_height(height as int),
{
    let avail = height.saturating_sub(17);
    if avail < 5 {
        5
    } else if avail > 9 {
        9
    } else {
        avail
    }
}

/// The message shown in place of the screens when the terminal is under
/// the minimum size of 60 columns by 22 rows.
pub fn too_small_text(language: Language) -> (r: &'static str)
    ensures
        r@ == (match language {
            Language::English => "Terminal too small. Resize to at least 60x22."@,
            Language::Russian => "Терминал слишком мал. Увеличьте до 60x22 минимум."@,
        }),
{
    tr(
        language,
        "Terminal too small. Resize to at least 60x22.",
        "Терминал слишком мал. Увеличьте до 60x22 минимум.",
    )
}

/// The extents of the overview screen, top to bottom: the summary bar,
/// the gauges (`stats` rows), the main panel, the key hints.
pub open spec fn overview_extents(stats: u16) -> Seq<Extent> {
    seq![Extent::Length(5), Extent::Length(stats), Extent::Min(8), Extent::Length(4)]
}

/// The extents of the other screens, top to bottom: the summary bar, the
/// main panel, the key hints.
pub open spec fn plain_extents() -> Seq<Extent> {
    seq![Extent::Length(5), Extent::Min(8), Extent::Length(4)]
}

/// The panels of a screen from the pieces the screen was split into, top
/// to bottom: the summary bar, the gauges when `with_stats`, the main
/// panel, the key hints.
pub fn panels_from_parts(parts: &Vec<Area>, with_stats: bool) -> (r: Screen)
    requires
        parts@.len() == (if with_stats {
            4int
        } else {
            3int
        }),
    ensures
        r == (if with_stats {
            Screen::Panels { header: parts@[0], stats: Some(parts@[1]), main: parts@[2], footer: parts@[3] }
        } else {
            Screen::Panels { header: parts@[0], stats: None, main: parts@[1], footer: parts@[2] }
        }),
{
    if with_stats {
        Screen::Panels { header: parts[0], stats: Some(parts[1]), main: parts[2], footer: parts[3] }
    } else {
        Screen::Panels { header: parts[0], stats: None, main: parts[1], footer: parts[2] }
    }
}

/// The areas of a screen of `size`, stacked from the top by the layout
/// solver: the summary bar asks for 5 rows, the gauges (on the overview,
/// unless the process list is expanded) for `stats_height` rows, the main
/// panel for at least 8, the key hints for 4. They are the solver's pieces
/// in that order; each spans the screen's width and lies inside it; where
/// each starts and how high it is the solver decides.
pub fn screen_areas(size: Area, view: ViewMode, processes_expanded: bool) -> (r: Screen)
    ensures
        (size.width < 60 || size.height < 22) <==> r is TooSmall,
        r matches Screen::Panels { header, stats, main, footer } ==> {
            &&& (stats is Some <==> (view == ViewMode::Overview && !processes_expanded))
            &&& stats matches Some(st) ==> exists|p: Seq<Area>|
                #[trigger] split_answer(false, overview_extents(stats_height(size.height as int) as u16), size, p)
                    && header == p[0] && st == p[1] && main == p[2] && footer == p[3]
            &&& stats is None ==> exists|p: Seq<Area>|
                #[trigger] split_answer(false, plain_extents(), size, p) && header == p[0] && main == p[1]
                    && footer == p[2]
            &&& header.x == size.x && header.width == size.width
            &&& main.x == size.x && main.width == size.width
            &&& footer.x == size.x && footer.width == size.width
            &&& stats matches Some(st) ==> st.x == size.x && st.width == size.width
        },
{
    if size.width < 60 || size.height < 22 {
        return Screen::TooSmall;
    }
    if view == ViewMode::Overview && !processes_expanded {
        let cpu = stats_rows(size.height);
        let extents = vec![Extent::Length(5), Extent::Length(cpu), Extent::Min(8), Extent::Length(4)];
        assert(extents@ == overview_extents(stats_height(size.height as int) as u16));
        let parts = split_rows(&extents, size);
        assert(piece_within(false, size, parts@[0]));
        assert(piece_within(false, size, parts@[1]));
        assert(piece_within(false, size, parts@[2]));
        assert(piece_within(false, size, parts@[3]));
        panels_from_parts(&parts, true)
    } else {
        let extents = vec![Extent::Length(5), Extent::Min(8), Extent::Length(4)];
        assert(extents@ == plain_extents());
        let parts = split_rows(&extents, size);
        assert(piece_within(false, size, parts@[0]));
        assert(piece_within(false, size, parts@[1]));
        assert(piece_within(false, size, parts@[2]));
        panels_from_parts(&parts, false)
    }
}

/// The rows the GPU dashboard asks for in an area `height` rows high: 7,
/// or the height less the 6 rows the table needs when that is more.
pub open spec fn dashboard_rows(height: int) -> int {
    if height > 13 {
        7
    } else if sat_sub(height, 6) < 7 {
        7
    } else {
        sat_sub(height, 6)
    }
}

/// The extents of the GPU view: the dashboard asking for `detail` rows,
/// the table taking the rest.
pub open spec fn gpu_view_extents(detail: u16) -> Seq<Extent> {
    seq![Extent::Length(detail), Extent::Min(0)]
}

/// The GPU view in `area`: the layout solver splits it into the dashboard,
/// asking for `dashboard_rows` rows, and below it the process table, which
/// is shown when the solver leaves it any rows; nothing when the area is
/// empty.
pub fn gpu_view_areas(area: Area) -> (r: Option<(Area, Option<Area>)>)
    ensures
        (area.width == 0 || area.height == 0) <==> r is None,
        r matches Some((d, t)) ==> exists|p: Seq<Area>|
            #[trigger] split_answer(false, gpu_view_extents(dashboard_rows(area.height as int) as u16), area, p)
                && d == p[0] && t == (if p[1].height > 0 {
                Some(p[1])
            } else {
                None
            }),
        r matches Some((d, t)) ==> d.x == area.x && d.width == area.width && match t {
            Some(a) => a.x == area.x && a.width == area.width && a.height > 0,
            None => true,
        },
{
    if area.width == 0 || area.height == 0 {
        return None;
    }
    let detail: u16 = if area.height > 13 {
        7
    } else {
        let rest = area.height.saturating_sub(6);
        if rest < 7 {
            7
        } else {
            rest
        }
    };
    let extents = vec![Extent::Length(detail), Extent::Min(0)];
    assert(extents@ == gpu_view_extents(dashboard_rows(area.height as int) as u16));
    let parts = split_rows(&extents, area);
    assert(piece_within(false, area, parts@[0]));
    assert(piece_within(false, area, parts@[1]));
    Some(gpu_view_from(&parts))
}

/// The dashboard and the process table from the two pieces of the GPU
/// view: the dashboard is the upper one, the table the lower one, shown
/// only when it has any rows.
pub fn gpu_view_from(parts: &Vec<Area>) -> (r: (Area, Option<Area>))
    requires
        parts@.len() == 2,
    ensures
        r == (parts@[0], if parts@[1].height > 0 {
            Some(parts@[1])
        } else {
            None
        }),
{
    let table = if parts[1].height > 0 {
        Some(parts[1])
    } else {
        None
    };
    (parts[0], table)
}

} // verus!
