//! The help screen: the key bindings, grouped in sections, the keys and
//! the first description padded to fixed columns.
use vstd::prelude::*;
use crate::info_tabs::lang_text;
use crate::strings::{chars_of, string_of};
use crate::text::{tr, Language};
use crate::widgets::{make_row, pad_right};

verus! {

/// A line of the help screen.
#[derive(Clone, Debug)]
pub enum HelpLine {
    /// A section title.
    Section(String),
    /// Two keys with their descriptions: key, description, key,
    /// description.
    Keys(String, String, String, String),
    /// An empty line between sections.
    Blank,
}

/// What a help line says, before padding.
pub enum HelpRow {
    Section(Seq<char>),
    Keys(Seq<char>, Seq<char>, Seq<char>, Seq<char>),
    Blank,
}

/// The width of the key column.
pub const KEY_COLUMN: usize = 14;

/// The width of the first description column.
pub const DESC_COLUMN: usize = 24;

/// The help screen's content.
pub open spec fn help_rows(language: Language) -> Seq<HelpRow> {
    seq![
        HelpRow::Section(lang_text(language, "Quick Keys"@, "Быстрые клавиши"@)),
        HelpRow::Keys("F2"@, lang_text(language, "Setup"@, "Настройки"@), "F12"@, lang_text(language, "Help"@, "Справка"@)),
        HelpRow::Keys("q/й"@, lang_text(language, "Quit"@, "Выход"@), "r/к"@, lang_text(language, "Refresh"@, "Обновить"@)),
        HelpRow::Blank,
        HelpRow::Section(lang_text(language, "Navigation"@, "Навигация"@)),
        HelpRow::Keys("↑/↓"@, lang_text(language, "Move selection"@, "Перемещение"@), "Enter"@, lang_text(language, "Expand/Kill"@, "Развернуть/Убить"@)),
        HelpRow::Keys("Home/End"@, lang_text(language, "First/Last"@, "Начало/Конец"@), "PgUp/PgDn"@, lang_text(language, "Page up/down"@, "Страница"@)),
        HelpRow::Keys("Esc/b/и"@, lang_text(language, "Back/Close"@, "Назад/Закрыть"@), "Tab"@, lang_text(language, "Switch panel/tab"@, "Панель/вкладка"@)),
        HelpRow::Blank,
        HelpRow::Section(lang_text(language, "Sorting"@, "Сортировка"@)),
        HelpRow::Keys("←/→"@, lang_text(language, "Change column/tab"@, "Колонка/вкладка"@), "Space"@, lang_text(language, "Toggle order"@, "Изменить порядок"@)),
        HelpRow::Keys("c/с"@, lang_text(language, "Sort by CPU"@, "По CPU"@), "m/ь"@, lang_text(language, "Sort by Memory"@, "По памяти"@)),
        HelpRow::Keys("p/з"@, lang_text(language, "Sort by PID"@, "По PID"@), "n/т"@, lang_text(language, "Sort by Name"@, "По имени"@)),
        HelpRow::Keys("u/г"@, lang_text(language, "Sort by User"@, "По юзеру"@), "h/р"@, lang_text(language, "Highlight mode"@, "Режим подсветки"@)),
        HelpRow::Blank,
        HelpRow::Section(lang_text(language, "Views"@, "Режимы"@)),
        HelpRow::Keys("1"@, lang_text(language, "Overview"@, "Обзор"@), "2"@, lang_text(language, "System Info"@, "Система"@)),
        HelpRow::Keys("3"@, lang_text(language, "GPU"@, "GPU"@), "4"@, lang_text(language, "Containers"@, "Контейнеры"@)),
        HelpRow::Keys("5"@, lang_text(language, "Processes"@, "Процессы"@), "t/е"@, lang_text(language, "Tree view"@, "Дерево"@)),
        HelpRow::Blank,
        HelpRow::Section(lang_text(language, "GPU"@, "GPU"@)),
        HelpRow::Keys("g/п"@, lang_text(language, "Next GPU"@, "Следующий GPU"@), "G/П"@, lang_text(language, "Previous GPU"@, "Предыдущий GPU"@)),
    ]
}

/// A help line as plain text.
pub enum HelpView {
    Section(Seq<char>),
    Keys(Seq<char>, Seq<char>, Seq<char>, Seq<char>),
    Blank,
}

/// A help line as plain text.
pub open spec fn help_view(l: HelpLine) -> HelpView {
    match l {
        HelpLine::Section(t) => HelpView::Section(t@),
        HelpLine::Keys(a, b, c, d) => HelpView::Keys(a@, b@, c@, d@),
        HelpLine::Blank => HelpView::Blank,
    }
}

/// How a row is shown: the keys padded to the key column and the first
/// description to the description column.
pub open spec fn shown_help(r: HelpRow) -> HelpView {
    match r {
        HelpRow::Section(t) => HelpView::Section(t),
        HelpRow::Keys(a, b, c, d) => HelpView::Keys(
            pad_right(a, KEY_COLUMN as nat),
            pad_right(b, DESC_COLUMN as nat),
            pad_right(c, KEY_COLUMN as nat),
            d,
        ),
        HelpRow::Blank => HelpView::Blank,
    }
}

/// Help lines as plain text.
pub open spec fn help_views(v: Seq<HelpLine>) -> Seq<HelpView> {
    v.map_values(|l: HelpLine| help_view(l))
}

fn push_section(lines: &mut Vec<HelpLine>, title: &str)
    ensures
        help_views(final(lines)@) == help_views(old(lines)@).push(shown_help(HelpRow::Section(title@))),
{
    let ghost before = help_views(lines@);
    lines.push(HelpLine::Section(string_of(&chars_of(title))));
    assert(help_views(lines@) =~= before.push(shown_help(HelpRow::Section(title@))));
}

fn push_blank(lines: &mut Vec<HelpLine>)
    ensures
        help_views(final(lines)@) == help_views(old(lines)@).push(shown_help(HelpRow::Blank)),
{
    let ghost before = help_views(lines@);
    lines.push(HelpLine::Blank);
    assert(help_views(lines@) =~= before.push(shown_help(HelpRow::Blank)));
}

fn push_keys(lines: &mut Vec<HelpLine>, key1: &str, desc1: &str, key2: &str, desc2: &str)
    ensures
        help_views(final(lines)@) == help_views(old(lines)@).push(
            shown_help(HelpRow::Keys(key1@, desc1@, key2@, desc2@)),
        ),
{
    let ghost before = help_views(lines@);
    let (a, b, c, d) = make_row(key1, desc1, key2, desc2, KEY_COLUMN, DESC_COLUMN);
    lines.push(HelpLine::Keys(a, b, c, d));
    assert(help_views(lines@) =~= before.push(shown_help(HelpRow::Keys(key1@, desc1@, key2@, desc2@))));
}

/// The lines of the help screen.
pub fn help_lines(language: Language) -> (r: Vec<HelpLine>)
    ensures
        help_views(r@) == help_rows(language).map_values(|row: HelpRow| shown_help(row)),
{
    let mut lines: Vec<HelpLine> = Vec::new();
    push_section(&mut lines, tr(language, "Quick Keys", "Быстрые клавиши"));
    push_keys(&mut lines, "F2", tr(language, "Setup", "Настройки"), "F12", tr(language, "Help", "Справка"));
    push_keys(&mut lines, "q/й", tr(language, "Quit", "Выход"), "r/к", tr(language, "Refresh", "Обновить"));
    push_blank(&mut lines);
    push_section(&mut lines, tr(language, "Navigation", "Навигация"));
    push_keys(&mut lines, "↑/↓", tr(language, "Move selection", "Перемещение"), "Enter", tr(language, "Expand/Kill", "Развернуть/Убить"));
    push_keys(&mut lines, "Home/End", tr(language, "First/Last", "Начало/Конец"), "PgUp/PgDn", tr(language, "Page up/down", "Страница"));
    push_keys(&mut lines, "Esc/b/и", tr(language, "Back/Close", "Назад/Закрыть"), "Tab", tr(language, "Switch panel/tab", "Панель/вкладка"));
    push_blank(&mut lines);
    push_section(&mut lines, tr(language, "Sorting", "Сортировка"));
    push_keys(&mut lines, "←/→", tr(language, "Change column/tab", "Колонка/вкладка"), "Space", tr(language, "Toggle order", "Изменить порядок"));
    push_keys(&mut lines, "c/с", tr(language, "Sort by CPU", "По CPU"), "m/ь", tr(language, "Sort by Memory", "По памяти"));
    push_keys(&mut lines, "p/з", tr(language, "Sort by PID", "По PID"), "n/т", tr(language, "Sort by Name", "По имени"));
    push_keys(&mut lines, "u/г", tr(language, "Sort by User", "По юзеру"), "h/р", tr(language, "Highlight mode", "Режим подсветки"));
    push_blank(&mut lines);
    push_section(&mut lines, tr(language, "Views", "Режимы"));
    push_keys(&mut lines, "1", tr(language, "Overview", "Обзор"), "2", tr(language, "System Info", "Система"));
    push_keys(&mut lines, "3", tr(language, "GPU", "GPU"), "4", tr(language, "Containers", "Контейнеры"));
    push_keys(&mut lines, "5", tr(language, "Processes", "Процессы"), "t/е", tr(language, "Tree view", "Дерево"));
    push_blank(&mut lines);
    push_section(&mut lines, tr(language, "GPU", "GPU"));
    push_keys(&mut lines, "g/п", tr(language, "Next GPU", "Следующий GPU"), "G/П", tr(language, "Previous GPU", "Предыдущий GPU"));
    assert(help_views(lines@) =~= help_rows(language).map_values(|row: HelpRow| shown_help(row)));
    lines
}

/// The title of the help pop-up.
pub fn help_title(language: Language) -> (r: &'static str)
    ensures
        r@ == (match language {
            Language::English => " Help "@,
            Language::Russian => " Справка "@,
        }),
{
    tr(language, " Help ", " Справка ")
}

} // verus!
