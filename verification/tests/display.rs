use rtop::display::{
    choose_mouse, display_from_drm, display_from_xrandr, display_summary, format_display_info,
    is_external_connector, is_touchpad_name, mouse_name, parse_mode_resolution,
    parse_refresh_token, parse_xrandr_resolution, parse_xrandr_size, DisplayInfo, DrmConnector,
};
use rtop::text::Language;

const LINE: &str = "HDMI-1 connected primary 1920x1080+0+0 (normal left inverted right x axis y axis) 527mm x 296mm";

const XRANDR: &str = "Screen 0: minimum 8 x 8, current 3840 x 1080, maximum 32767 x 32767
eDP-1 connected 1920x1080+0+0 (normal left inverted right x axis y axis) 344mm x 194mm
   1920x1080     60.01*+  59.97
   1680x1050     59.95
HDMI-1 connected primary 1920x1080+1920+0 (normal) 527mm x 296mm
   1920x1080     60.00 +  74.97*
DP-1 disconnected (normal left inverted right x axis y axis)
";

fn text(v: Option<Vec<char>>) -> Option<String> {
    v.map(|c| c.into_iter().collect())
}

#[test]
fn connectors() {
    assert!(is_external_connector("HDMI-A-1"));
    assert!(is_external_connector("DP-1"));
    assert!(!is_external_connector("eDP-1"));
    assert!(!is_external_connector("LVDS1"));
    assert!(!is_external_connector("DSI-1"));
}

#[test]
fn xrandr_output_line() {
    assert_eq!(parse_xrandr_resolution(LINE), Some((1920, 1080)));
    assert_eq!(parse_xrandr_size(LINE), Some((527, 296)));
    assert_eq!(parse_xrandr_resolution("eDP-1 connected (normal left inverted right x axis y axis)"), None);
    assert_eq!(parse_xrandr_size("HDMI-1 connected 1920x1080+0+0"), None);
    assert_eq!(parse_xrandr_size("a 0mm x 0mm"), Some((0, 0)));
    assert_eq!(parse_xrandr_resolution("X 12x+0"), None);
}

#[test]
fn drm_mode_lines() {
    assert_eq!(parse_mode_resolution(" 2560x1440\n"), Some((2560, 1440)));
    assert_eq!(parse_mode_resolution("2560x1440i"), None);
    assert_eq!(parse_mode_resolution("garbage"), None);
}

#[test]
fn refresh_tokens() {
    assert_eq!(text(parse_refresh_token("   1920x1080     60.00*+  59.94    50.00")).as_deref(), Some("60.00"));
    assert_eq!(text(parse_refresh_token("   1920x1080     59.94 +")), None);
    assert_eq!(text(parse_refresh_token("   mode 1.2.3*")), None);
    assert_eq!(text(parse_refresh_token("   mode 144.")), None);
    assert_eq!(text(parse_refresh_token("   mode *144.")).as_deref(), Some("144."));
}

#[test]
fn xrandr_prefers_primary() {
    let d = display_from_xrandr(XRANDR).unwrap();
    assert_eq!((d.width, d.height), (1920, 1080));
    assert_eq!(d.size_mm, Some((527, 296)));
    assert_eq!(d.refresh.as_deref(), Some("74.97"));
    assert!(d.is_external);
}

#[test]
fn xrandr_falls_back_to_first_output() {
    let no_primary = XRANDR.replace(" primary", "");
    let d = display_from_xrandr(&no_primary).unwrap();
    assert_eq!(d.size_mm, Some((344, 194)));
    assert_eq!(d.refresh.as_deref(), Some("60.01"));
    assert!(!d.is_external);
    assert!(display_from_xrandr("").is_none());
    assert!(display_from_xrandr("VGA-1 connected (normal)\nHDMI-1 connected primary 800x600+0+0\n").is_none());
}

#[test]
fn display_lines() {
    let info = DisplayInfo { width: 1920, height: 1080, refresh_hz: Some(60), size_in: Some(24), is_external: Some(true) };
    assert_eq!(format_display_info(&info, Language::English), "1920x1080 @ 60 Hz in 24\" [External]");
    let laptop = DisplayInfo { width: 2560, height: 1600, refresh_hz: None, size_in: None, is_external: Some(false) };
    assert_eq!(format_display_info(&laptop, Language::Russian), "2560x1600 [Встроенный]");
    let bare = DisplayInfo { width: 800, height: 600, refresh_hz: None, size_in: None, is_external: None };
    assert_eq!(display_summary(Some(&bare), Language::English).as_deref(), Some("800x600"));
    assert_eq!(display_summary(None, Language::English), None);
}

const DEVICES: &str = "I: Bus=0018 Vendor=04f3 Product=3140 Version=0100
N: Name=\"ELAN0001:00 04F3:3140 Touchpad\"
H: Handlers=mouse0 event5 

I: Bus=0003 Vendor=046d Product=c52b Version=0111
N: Name=\"Logitech USB Receiver Mouse\"
H: Handlers=event7 mouse1

I: Bus=0011
N: Name=\"AT Translated Set 2 keyboard\"
H: Handlers=sysrq kbd event3 leds
";

#[test]
fn mouse_prefers_a_real_mouse() {
    assert_eq!(mouse_name(DEVICES).as_deref(), Some("Logitech USB Receiver Mouse"));
    let only_pad = DEVICES.split("\n\n").next().unwrap();
    assert_eq!(mouse_name(only_pad).as_deref(), Some("ELAN0001:00 04F3:3140 Touchpad"));
    assert_eq!(mouse_name(""), None);
}

#[test]
fn mouse_choice() {
    assert_eq!(choose_mouse(vec![]), None);
    assert_eq!(choose_mouse(vec!["Synaptics TrackPoint".to_string(), "USB Mouse".to_string()]).as_deref(), Some("USB Mouse"));
    assert!(is_touchpad_name("Synaptics TrackPoint"));
    assert!(is_touchpad_name("Apple TRACKPAD"));
    assert!(!is_touchpad_name("USB Mouse"));
}

#[test]
fn drm_connectors() {
    let c = |name: &str, status: Option<&str>, modes: Option<&str>| DrmConnector {
        name: name.to_string(),
        status: status.map(|s| s.to_string()),
        modes: modes.map(|s| s.to_string()),
    };
    let list = vec![
        c("card0", None, None),
        c("card0-eDP-1", Some("disconnected\n"), None),
        c("card0-HDMI-A-1", Some("connected\n"), Some("\n1920x1080\n1280x720\n")),
    ];
    assert_eq!(display_from_drm(&list), Some((2, 1920, 1080, true)));
    let laptop = vec![c("card1-eDP-1", Some("connected"), Some("2880x1800\n"))];
    assert_eq!(display_from_drm(&laptop), Some((0, 2880, 1800, false)));
    let unreadable = vec![c("card0-DP-1", None, None), c("card0-HDMI-A-1", Some("connected"), Some("1x1"))];
    assert_eq!(display_from_drm(&unreadable), None);
    assert_eq!(display_from_drm(&vec![]), None);
}
