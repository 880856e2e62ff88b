//! The GPU dashboard: the selected GPU's name with its load, temperature
//! and power, then its video memory, encoder and decoder, and fan.
use vstd::prelude::*;
use crate::format::{bytes_text, fit_text, fit_text_spec, format_bytes};
use crate::info_tabs::lang_text;
use crate::layout::{inner_area, panel_inner, Area};
use crate::strings::{chars_of, decimal, push_decimal, push_str, string_of};
use crate::text::{tr, Language};
use crate::widgets::{calc_bar_width, clamp, pad_right, pad_right_string};

verus! {

/// Which gauge a bar shows (its colour follows its share).
#[derive(Clone, Copy, Debug, PartialEq, Eq)]
pub enum GaugeKind {
    Load,
    Vram,
    Encoder,
    Fan,
}

/// How a piece of a dashboard line is drawn.
#[derive(Clone, Copy, Debug, PartialEq, Eq)]
pub enum DashStyle {
    Title,
    Label,
    Value,
    Bar(GaugeKind),
}

/// A piece of a dashboard line.
#[derive(Clone, Debug)]
pub struct DashSpan {
    pub text: String,
    pub style: DashStyle,
}

/// A gauge as drawn: its bar and its share, formatted (`" 42%"`).
#[derive(Clone, Debug)]
pub struct GpuGauge {
    pub bar: String,
    pub pct: String,
}

/// What the dashboard shows of the selected GPU: its position among the
/// GPUs, its short vendor and device names, and its gauges and readings,
/// formatted.
#[derive(Clone, Debug)]
pub struct GpuReadings {
    pub index: usize,
    pub count: usize,
    pub vendor: String,
    pub device: String,
    pub load: GpuGauge,
    pub temperature: Option<String>,
    pub power: String,
    pub vram: Option<(u64, u64, GpuGauge)>,
    pub encoder: GpuGauge,
    pub decoder_pct: String,
    pub fan: Option<GpuGauge>,
}

/// What the dashboard is asked to show.
#[derive(Clone, Debug)]
pub enum GpuDashboard {
    /// GPU monitoring is switched off.
    Disabled,
    /// No GPU was found.
    NoGpu,
    /// The selected GPU.
    Gpu(GpuReadings),
}

/// A dashboard piece as plain values.
pub type SpanText = (Seq<char>, DashStyle);

/// Dashboard lines as plain values.
pub open spec fn dash_texts(v: Seq<Vec<DashSpan>>) -> Seq<Seq<SpanText>> {
    v.map_values(|l: Vec<DashSpan>| l@.map_values(|s: DashSpan| (s.text@, s.style)))
}

/// The name line's label: `[<n>/<count>] <vendor> <device>` when there
/// are several GPUs, else `<vendor> <device>`.
pub open spec fn gpu_label(g: GpuReadings) -> Seq<char> {
    if g.count > 1 {
        "["@ + decimal((g.index + 1) as nat) + "/"@ + decimal(g.count as nat) + "] "@ + g.vendor@ + " "@
            + g.device@
    } else {
        g.vendor@ + " "@ + g.device@
    }
}

/// The width the labels are padded to: the name label's length in UTF-8
/// bytes, plus two (never past `usize::MAX`).
pub open spec fn label_pad(label: Seq<char>) -> nat {
    let n = (vstd::utf8::encode_utf8(label).len() as usize) as int + 2;
    if n > usize::MAX {
        usize::MAX as nat
    } else {
        n as nat
    }
}

/// The lines of the dashboard for the GPU `g` in a panel `width` columns
/// wide: the name line (label, load bar and share, temperature or `na`,
/// power), the video memory line when it is known (bar, used and total),
/// the encoder line (bar and share, then the decoder's share) and the fan
/// line when it is known; labels are padded to `label_pad`.
pub open spec fn gpu_lines(g: GpuReadings, na: Seq<char>) -> Seq<Seq<SpanText>> {
    let label = gpu_label(g);
    let lw = label_pad(label);
    let name = seq![
        (pad_right(label, lw), DashStyle::Title),
        (g.load.bar@, DashStyle::Bar(GaugeKind::Load)),
        (" "@ + g.load.pct@, DashStyle::Value),
        (" | "@, DashStyle::Label),
        (
            match g.temperature {
                Some(t) => t@,
                None => na,
            },
            DashStyle::Value,
        ),
        (" | "@, DashStyle::Label),
        (g.power@, DashStyle::Value),
    ];
    let vram = match g.vram {
        Some((used, total, gauge)) => seq![
            seq![
                (pad_right("VRAM"@, lw), DashStyle::Label),
                (gauge.bar@, DashStyle::Bar(GaugeKind::Vram)),
                (" "@ + bytes_text(used as nat) + " / "@ + bytes_text(total as nat), DashStyle::Value),
            ],
        ],
        None => Seq::empty(),
    };
    let coder = seq![
        (pad_right("Encoder"@, lw), DashStyle::Label),
        (g.encoder.bar@, DashStyle::Bar(GaugeKind::Encoder)),
        (" "@ + g.encoder.pct@, DashStyle::Value),
        (" | Decoder "@, DashStyle::Label),
        (g.decoder_pct@, DashStyle::Value),
    ];
    let fan = match g.fan {
        Some(gauge) => seq![
            seq![
                (pad_right("Fan"@, lw), DashStyle::Label),
                (gauge.bar@, DashStyle::Bar(GaugeKind::Fan)),
                (" "@ + gauge.pct@, DashStyle::Value),
            ],
        ],
        None => Seq::empty(),
    };
    seq![name] + vram + seq![coder] + fan
}

/// The dashboard in the panel `area`: nothing when the panel has no room
/// inside its border; else a note when monitoring is off or there is no
/// GPU (cut to the width), or the lines of the selected GPU.
pub open spec fn dashboard_lines(area: Area, d: GpuDashboard, language: Language) -> Seq<Seq<SpanText>> {
    let inner = inner_area(area);
    if inner.width == 0 || inner.height == 0 {
        Seq::empty()
    } else {
        match d {
            GpuDashboard::Disabled => seq![
                seq![
                    (
                        fit_text_spec(
                            lang_text(language, "GPU monitoring disabled"@, "Мониторинг GPU отключен"@),
                            inner.width as nat,
                        ),
                        DashStyle::Label,
                    ),
                ],
            ],
            GpuDashboard::NoGpu => seq![
                seq![
                    (
                        fit_text_spec(lang_text(language, "No GPU detected"@, "GPU не обнаружен"@), inner.width as nat),
                        DashStyle::Label,
                    ),
                ],
            ],
            GpuDashboard::Gpu(g) => gpu_lines(g, lang_text(language, "n/a"@, "н/д"@)),
        }
    }
}

/// The width of the dashboard's bars in the panel `area`: what the inside
/// width leaves after 35 columns, kept between 10 and 24.
pub fn dashboard_bar_width(area: Area) -> (w: usize)
    ensures
        w == clamp(
            if inner_area(area).width >= 35 {
                inner_area(area).width - 35
            } else {
                0
            },
            10,
            24,
        ),
{
    calc_bar_width(panel_inner(area).width as usize, 35)
}

/// A piece.
fn span(text: String, style: DashStyle) -> (s: DashSpan)
    ensures
        s.text@ == text@,
        s.style == style,
{
    DashSpan { text, style }
}

/// `" " + text`.
fn spaced(text: &str) -> (r: String)
    ensures
        r@ == " "@ + text@,
{
    let mut v = chars_of(" ");
    push_str(&mut v, text);
    string_of(&v)
}

/// The name line's label.
fn gpu_label_string(g: &GpuReadings) -> (r: String)
    requires
        g.index < usize::MAX,
    ensures
        r@ == gpu_label(*g),
{
    let mut v: Vec<char> = Vec::new();
    if g.count > 1 {
        push_str(&mut v, "[");
        push_decimal(&mut v, (g.index + 1) as u64);
        push_str(&mut v, "/");
        push_decimal(&mut v, g.count as u64);
        push_str(&mut v, "] ");
    }
    push_str(&mut v, g.vendor.as_str());
    push_str(&mut v, " ");
    push_str(&mut v, g.device.as_str());
    string_of(&v)
}

/// The lines of the dashboard for the selected GPU.
fn gpu_dash_lines(g: &GpuReadings, na: &str) -> (r: Vec<Vec<DashSpan>>)
    requires
        g.index < usize::MAX,
    ensures
        dash_texts(r@) == gpu_lines(*g, na@),
{
    let label = gpu_label_string(g);
    let lw = label.as_str().len().saturating_add(2);
    let temp = match &g.temperature {
        Some(t) => string_of(&chars_of(t.as_str())),
        None => string_of(&chars_of(na)),
    };
    let name = vec![
        span(pad_right_string(label.as_str(), lw), DashStyle::Title),
        span(string_of(&chars_of(g.load.bar.as_str())), DashStyle::Bar(GaugeKind::Load)),
        span(spaced(g.load.pct.as_str()), DashStyle::Value),
        span(string_of(&chars_of(" | ")), DashStyle::Label),
        span(temp, DashStyle::Value),
        span(string_of(&chars_of(" | ")), DashStyle::Label),
        span(string_of(&chars_of(g.power.as_str())), DashStyle::Value),
    ];
    let mut lines: Vec<Vec<DashSpan>> = Vec::new();
    let ghost t = gpu_lines(*g, na@);
    let ghost lwn = label_pad(gpu_label(*g));
    assert(lw as nat == lwn);
    let ghost parts = seq![name@.map_values(|s: DashSpan| (s.text@, s.style))];
    assert(parts[0] =~= t[0]);
    lines.push(name);
    assert(dash_texts(lines@) =~~= parts);
    match &g.vram {
        Some(m) => {
            let mut info = chars_of(" ");
            push_str(&mut info, format_bytes(m.0).as_str());
            push_str(&mut info, " / ");
            push_str(&mut info, format_bytes(m.1).as_str());
            lines.push(
                vec![
                    span(pad_right_string("VRAM", lw), DashStyle::Label),
                    span(string_of(&chars_of(m.2.bar.as_str())), DashStyle::Bar(GaugeKind::Vram)),
                    span(string_of(&info), DashStyle::Value),
                ],
            );
        },
        None => {},
    }
    lines.push(
        vec![
            span(pad_right_string("Encoder", lw), DashStyle::Label),
            span(string_of(&chars_of(g.encoder.bar.as_str())), DashStyle::Bar(GaugeKind::Encoder)),
            span(spaced(g.encoder.pct.as_str()), DashStyle::Value),
            span(string_of(&chars_of(" | Decoder ")), DashStyle::Label),
            span(string_of(&chars_of(g.decoder_pct.as_str())), DashStyle::Value),
        ],
    );
    match &g.fan {
        Some(f) => {
            lines.push(
                vec![
                    span(pad_right_string("Fan", lw), DashStyle::Label),
                    span(string_of(&chars_of(f.bar.as_str())), DashStyle::Bar(GaugeKind::Fan)),
                    span(spaced(f.pct.as_str()), DashStyle::Value),
                ],
            );
        },
        None => {},
    }
    assert(dash_texts(lines@) =~~= t);
    lines
}

/// The GPU dashboard in the panel `area`.
pub fn gpu_dashboard_lines(area: Area, d: &GpuDashboard, language: Language) -> (r: Vec<Vec<DashSpan>>)
    requires
        d matches GpuDashboard::Gpu(g) ==> g.index < usize::MAX,
    ensures
        dash_texts(r@) == dashboard_lines(area, *d, language),
{
    let inner = panel_inner(area);
    if inner.width == 0 || inner.height == 0 {
        let r: Vec<Vec<DashSpan>> = Vec::new();
        assert(dash_texts(r@) =~= Seq::<Seq<SpanText>>::empty());
        return r;
    }
    let width = inner.width as usize;
    match d {
        GpuDashboard::Disabled => {
            let t = fit_text(tr(language, "GPU monitoring disabled", "Мониторинг GPU отключен"), width);
            let r = vec![vec![span(t, DashStyle::Label)]];
            assert(dash_texts(r@) =~~= dashboard_lines(area, *d, language));
            r
        },
        GpuDashboard::NoGpu => {
            let t = fit_text(tr(language, "No GPU detected", "GPU не обнаружен"), width);
            let r = vec![vec![span(t, DashStyle::Label)]];
            assert(dash_texts(r@) =~~= dashboard_lines(area, *d, language));
            r
        },
        GpuDashboard::Gpu(g) => gpu_dash_lines(g, tr(language, "n/a", "н/д")),
    }
}

} // verus!
