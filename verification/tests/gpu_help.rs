use rtop::gpu_dash::{dashboard_bar_width, gpu_dashboard_lines, DashSpan, DashStyle, GaugeKind, GpuDashboard, GpuGauge, GpuReadings};
use rtop::help::{help_lines, help_title, HelpLine};
use rtop::layout::Area;
use rtop::text::Language;

fn area(width: u16, height: u16) -> Area {
    Area { x: 0, y: 0, width, height }
}

fn texts(line: &[DashSpan]) -> Vec<&str> {
    line.iter().map(|s| s.text.as_str()).collect()
}

fn gauge(bar: &str, pct: &str) -> GpuGauge {
    GpuGauge { bar: bar.to_string(), pct: pct.to_string() }
}

fn readings(count: usize, vendor: &str, device: &str) -> GpuReadings {
    GpuReadings {
        index: 0,
        count,
        vendor: vendor.to_string(),
        device: device.to_string(),
        load: gauge("██░░", " 42%"),
        temperature: Some("55°C".to_string()),
        power: "120W/200W".to_string(),
        vram: Some((1 << 30, 2 << 30, gauge("██░░", " 50%"))),
        encoder: gauge("░░░░", "  0%"),
        decoder_pct: "  3%".to_string(),
        fan: None,
    }
}

#[test]
fn dashboard_notes() {
    let l = gpu_dashboard_lines(area(40, 10), &GpuDashboard::Disabled, Language::English);
    assert_eq!(l.len(), 1);
    assert_eq!(texts(&l[0]), vec!["GPU monitoring disabled"]);
    assert_eq!(l[0][0].style, DashStyle::Label);
    let l = gpu_dashboard_lines(area(40, 10), &GpuDashboard::NoGpu, Language::Russian);
    assert_eq!(texts(&l[0]), vec!["GPU не обнаружен"]);
    let l = gpu_dashboard_lines(area(10, 10), &GpuDashboard::NoGpu, Language::English);
    assert_eq!(texts(&l[0]), vec!["No GP..."]);
    assert!(gpu_dashboard_lines(area(2, 10), &GpuDashboard::NoGpu, Language::English).is_empty());
}

#[test]
fn dashboard_of_a_gpu() {
    let l = gpu_dashboard_lines(area(80, 10), &GpuDashboard::Gpu(readings(2, "AMD", "RX 7700 XT")), Language::English);
    assert_eq!(l.len(), 3);
    assert_eq!(
        texts(&l[0]),
        vec!["[1/2] AMD RX 7700 XT  ", "██░░", "  42%", " | ", "55°C", " | ", "120W/200W"]
    );
    assert_eq!(l[0][0].style, DashStyle::Title);
    assert_eq!(l[0][1].style, DashStyle::Bar(GaugeKind::Load));
    let vram = format!("{:<22}", "VRAM");
    assert_eq!(texts(&l[1]), vec![vram.as_str(), "██░░", " 1.0 GiB / 2.0 GiB"]);
    let enc = format!("{:<22}", "Encoder");
    assert_eq!(texts(&l[2]), vec![enc.as_str(), "░░░░", "   0%", " | Decoder ", "  3%"]);

    let mut r = readings(1, "NVIDIA", "RTX");
    r.temperature = None;
    r.vram = None;
    r.fan = Some(gauge("█░", " 30%"));
    let l = gpu_dashboard_lines(area(80, 10), &GpuDashboard::Gpu(r), Language::Russian);
    assert_eq!(l.len(), 3);
    assert_eq!(texts(&l[0])[0], "NVIDIA RTX  ");
    assert_eq!(texts(&l[0])[4], "н/д");
    let fan = format!("{:<12}", "Fan");
    assert_eq!(texts(&l[2]), vec![fan.as_str(), "█░", "  30%"]);
}

#[test]
fn dashboard_label_counts_bytes() {
    let l = gpu_dashboard_lines(area(80, 10), &GpuDashboard::Gpu(readings(1, "Интел", "X")), Language::English);
    assert_eq!(texts(&l[0])[0], format!("{:<14}", "Интел X"));
    assert_eq!(texts(&l[2])[0], format!("{:<14}", "Encoder"));
}

#[test]
fn dashboard_bars() {
    assert_eq!(dashboard_bar_width(area(80, 10)), 24);
    assert_eq!(dashboard_bar_width(area(40, 10)), 10);
    assert_eq!(dashboard_bar_width(area(60, 10)), 23);
}

#[test]
fn help_screen() {
    let l = help_lines(Language::English);
    assert_eq!(l.len(), 22);
    assert!(matches!(&l[0], HelpLine::Section(t) if t == "Quick Keys"));
    match &l[1] {
        HelpLine::Keys(a, b, c, d) => {
            assert_eq!(a, &format!("{:<14}", "F2"));
            assert_eq!(b, &format!("{:<24}", "Setup"));
            assert_eq!(c, &format!("{:<14}", "F12"));
            assert_eq!(d, "Help");
        }
        _ => panic!("expected keys"),
    }
    assert!(matches!(&l[3], HelpLine::Blank));
    assert!(matches!(&l[21], HelpLine::Keys(_, _, _, d) if d == "Previous GPU"));
    let r = help_lines(Language::Russian);
    assert!(matches!(&r[0], HelpLine::Section(t) if t == "Быстрые клавиши"));
    assert!(matches!(&r[2], HelpLine::Keys(a, b, _, _) if *a == format!("{:<14}", "q/й") && *b == format!("{:<24}", "Выход")));
}

#[test]
fn help_popup_title() {
    assert_eq!(help_title(Language::English), " Help ");
    assert_eq!(help_title(Language::Russian), " Справка ");
}
