//! Labels of the overview lines, as Nerd Font icons or as plain text.
use vstd::prelude::*;

verus! {

/// How line labels are drawn.
#[derive(Clone, Copy, Debug, PartialEq, Eq)]
pub enum IconMode {
    Nerd,
    Text,
}

/// A label with a Nerd Font icon and a plain-text form.
#[derive(Clone, Copy, Debug)]
pub struct IconLabel {
    pub nerd: &'static str,
    pub text: &'static str,
}

impl IconLabel {
    /// A label from its icon and its text form.
    pub fn new(nerd: &'static str, text: &'static str) -> (r: Self)
        ensures
            r.nerd@ == nerd@,
            r.text@ == text@,
    {
        IconLabel { nerd, text }
    }

    /// The form of the label for `icon_mode`.
    pub fn get(&self, icon_mode: IconMode) -> (r: &'static str)
        ensures
            r@ == (match icon_mode {
                IconMode::Nerd => self.nerd@,
                IconMode::Text => self.text@,
            }),
    {
        match icon_mode {
            IconMode::Nerd => self.nerd,
            IconMode::Text => self.text,
        }
    }
}

/// The lines of the system overview that carry a label.
#[derive(Clone, Copy, Debug, PartialEq, Eq)]
pub enum InfoItem {
    User,
    Distro,
    Os,
    Kernel,
    Uptime,
    Board,
    Cpu,
    Gpu,
    Mem,
    Disk,
    Display,
    Mouse,
    De,
    Wm,
    Shell,
    Term,
    Pkg,
}

/// The icon and the text form of the label of `item`.
pub open spec fn icon_strs(item: InfoItem) -> (Seq<char>, Seq<char>) {
    match item {
        InfoItem::User => (""@, "User:"@),
        InfoItem::Distro => ("\u{f12e9}"@, "Distro:"@),
        InfoItem::Os => ("\u{f08db}"@, "OS:"@),
        InfoItem::Kernel => (""@, "Kernel:"@),
        InfoItem::Uptime => ("\u{f0150}"@, "Uptime:"@),
        InfoItem::Board => ("\u{f0fb0}"@, "Board:"@),
        InfoItem::Cpu => ("\u{f0ee0}"@, "CPU:"@),
        InfoItem::Gpu => ("\u{f035b}"@, "GPU:"@),
        InfoItem::Mem => (""@, "RAM:"@),
        InfoItem::Disk => (""@, "Disk:"@),
        InfoItem::Display => ("\u{f0379}"@, "Display:"@),
        InfoItem::Mouse => ("\u{f05ba}"@, "Mouse:"@),
        InfoItem::De => ("\u{f056e}"@, "DE:"@),
        InfoItem::Wm => (""@, "WM:"@),
        InfoItem::Shell => (""@, "Shell:"@),
        InfoItem::Term => (""@, "Term:"@),
        InfoItem::Pkg => ("\u{f03d6}"@, "Pkgs:"@),
    }
}

/// The label of an overview line.
pub fn icon_label(item: InfoItem) -> (r: IconLabel)
    ensures
        (r.nerd@, r.text@) == icon_strs(item),
{
    match item {
        InfoItem::User => IconLabel { nerd: "", text: "User:" },
        InfoItem::Distro => IconLabel { nerd: "\u{f12e9}", text: "Distro:" },
        InfoItem::Os => IconLabel { nerd: "\u{f08db}", text: "OS:" },
        InfoItem::Kernel => IconLabel { nerd: "", text: "Kernel:" },
        InfoItem::Uptime => IconLabel { nerd: "\u{f0150}", text: "Uptime:" },
        InfoItem::Board => IconLabel { nerd: "\u{f0fb0}", text: "Board:" },
        InfoItem::Cpu => IconLabel { nerd: "\u{f0ee0}", text: "CPU:" },
        InfoItem::Gpu => IconLabel { nerd: "\u{f035b}", text: "GPU:" },
        InfoItem::Mem => IconLabel { nerd: "", text: "RAM:" },
        InfoItem::Disk => IconLabel { nerd: "", text: "Disk:" },
        InfoItem::Display => IconLabel { nerd: "\u{f0379}", text: "Display:" },
        InfoItem::Mouse => IconLabel { nerd: "\u{f05ba}", text: "Mouse:" },
        InfoItem::De => IconLabel { nerd: "\u{f056e}", text: "DE:" },
        InfoItem::Wm => IconLabel { nerd: "", text: "WM:" },
        InfoItem::Shell => IconLabel { nerd: "", text: "Shell:" },
        InfoItem::Term => IconLabel { nerd: "", text: "Term:" },
        InfoItem::Pkg => IconLabel { nerd: "\u{f03d6}", text: "Pkgs:" },
    }
}

pub const ICON_SEP_NERD: &'static str = "";
pub const ICON_IMMUTABLE: &'static str = "";

} // verus!
