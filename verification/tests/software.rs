use rtop::software::{
    desktop_environment, desktop_version_command, extract_version_token, known_terminal_name,
    normalize_terminal_name, session_type, shell_name, shell_program, shell_version_var,
    terminal_from_ancestors, terminal_label, terminal_version_command, terminal_with_version, window_manager,
};

#[test]
fn version_token_from_output() {
    assert_eq!(extract_version_token("GNOME Shell 46.0").as_deref(), Some("46.0"));
    assert_eq!(extract_version_token("plasmashell 5.27.10.").as_deref(), Some("5.27.10"));
    assert_eq!(extract_version_token("v1.2-beta").as_deref(), Some("1.2"));
    assert_eq!(extract_version_token("no digits here"), None);
    assert_eq!(extract_version_token(""), None);
}

#[test]
fn known_terminals() {
    assert_eq!(known_terminal_name("ALACRITTY").as_deref(), Some("Alacritty"));
    assert_eq!(known_terminal_name("gnome-terminal-server").as_deref(), Some("GNOME Terminal"));
    assert_eq!(known_terminal_name("urxvt").as_deref(), Some("rxvt"));
    assert_eq!(known_terminal_name("bash"), None);
}

#[test]
fn normalized_terminal_names() {
    assert_eq!(normalize_terminal_name("WezTerm"), "WezTerm");
    assert_eq!(normalize_terminal_name("iTerm.app"), "ITerm.app");
    assert_eq!(normalize_terminal_name(""), "");
}

#[test]
fn terminal_label_with_version() {
    assert_eq!(terminal_label("kitty", Some("0.35.1 build")), "Kitty 0.35.1");
    assert_eq!(terminal_label("Apple_Terminal", None), "Apple_Terminal");
    assert_eq!(terminal_label("vscode", Some("none")), "Vscode");
}

#[test]
fn terminal_found_among_ancestors() {
    let names: Vec<String> = ["rtop", "zsh", "alacritty", "systemd"].iter().map(|s| s.to_string()).collect();
    assert_eq!(terminal_from_ancestors(&names), Some((2, "Alacritty".to_string())));
    let none: Vec<String> = vec!["rtop".to_string(), "sshd".to_string()];
    assert_eq!(terminal_from_ancestors(&none), None);
}

#[test]
fn terminal_version_commands() {
    assert_eq!(terminal_version_command("gnome-terminal-server", None), "gnome-terminal");
    assert_eq!(terminal_version_command("wezterm-gui", Some("/usr/bin/wezterm-gui")), "wezterm");
    assert_eq!(terminal_version_command("kitty", Some("/opt/kitty/bin/kitty")), "/opt/kitty/bin/kitty");
    assert_eq!(terminal_version_command("kitty", None), "kitty");
}

#[test]
fn session_types() {
    assert_eq!(session_type(Some("wayland")), Some("Wayland"));
    assert_eq!(session_type(Some("X11")), Some("X11"));
    assert_eq!(session_type(Some("tty")), None);
    assert_eq!(session_type(None), None);
}

#[test]
fn window_manager_from_processes() {
    let names: Vec<String> = vec!["systemd".into(), "Hyprland".into(), "sway".into()];
    assert_eq!(window_manager(&names, Some("wayland")).as_deref(), Some("Hyprland (Wayland)"));
    let i3: Vec<String> = vec!["i3".into()];
    assert_eq!(window_manager(&i3, None).as_deref(), Some("i3"));
    assert_eq!(window_manager(&i3, Some("tty")).as_deref(), Some("i3"));
    let none: Vec<String> = vec!["bash".into()];
    assert_eq!(window_manager(&none, Some("x11")), None);
}

#[test]
fn desktop_lines() {
    assert_eq!(desktop_version_command("KDE"), Some("plasmashell"));
    assert_eq!(desktop_version_command("GNOME"), Some("gnome-shell"));
    assert_eq!(desktop_version_command("ubuntu:GNOME"), None);
    assert_eq!(desktop_environment("KDE", Some("6.0.4")), "KDE Plasma 6.0.4");
    assert_eq!(desktop_environment("GNOME", None), "GNOME");
    assert_eq!(desktop_environment("ubuntu:GNOME", None), "ubuntu");
    assert_eq!(desktop_environment("X-Cinnamon", None), "Cinnamon");
    assert_eq!(desktop_environment("Hyprland", None), "Hyprland");
}

#[test]
fn shell_lines() {
    assert_eq!(shell_program("/usr/bin/zsh"), "zsh");
    assert_eq!(shell_program("fish"), "fish");
    assert_eq!(shell_version_var("bash"), Some("BASH_VERSION"));
    assert_eq!(shell_version_var("nushell"), Some("NU_VERSION"));
    assert_eq!(shell_version_var("sh"), None);
    assert_eq!(shell_name("bash", Some("5.2.26(1)-release")), "bash 5.2.26");
    assert_eq!(shell_name("dash", None), "dash");
}

#[test]
fn terminal_joined_with_version() {
    assert_eq!(terminal_with_version("Kitty", Some("0.35.2")), "Kitty 0.35.2");
    assert_eq!(terminal_with_version("Alacritty", None), "Alacritty");
}

#[test]
fn shell_program_without_file_name() {
    assert_eq!(shell_program("/usr/.."), "/usr/..");
    assert_eq!(shell_program(".."), "..");
    assert_eq!(shell_program("dash"), "dash");
}

#[test]
fn fit_law_inputs_ascii_width() {
    assert_eq!(rtop::format::text_width("abc..."), 6);
}
