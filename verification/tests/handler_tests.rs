use aether_procs::icons::ToolbarIcon;
use aether_procs::menu::{AppMenuAction, AppMenuPage, AppMenuState, MenuClick};
use aether_procs::procfs::RawProcess;
use aether_procs::servo_handler::{
    default_user_agent_json, experimental_preferences_json, request_is_from_web_content,
    RequestSource, ServoProtocolHandler, ServoShortcut,
};

fn source(origin: Option<&str>, referrer: Option<&str>) -> RequestSource {
    RequestSource {
        origin_scheme: origin.map(|s| s.to_owned()),
        referrer_scheme: referrer.map(|s| s.to_owned()),
    }
}

fn resource(s: &ServoShortcut) -> Option<&str> {
    match s {
        ServoShortcut::Resource(p) => Some(p.as_str()),
        _ => None,
    }
}

#[test]
fn shortcuts_map_to_resource_pages() {
    let handler = ServoProtocolHandler::new();
    assert_eq!(resource(&handler.shortcut("config")), Some("/config.html"));
    assert_eq!(resource(&handler.shortcut("newtab")), Some("/newtab.html"));
    assert_eq!(resource(&handler.shortcut("preferences")), Some("/preferences.html"));
    assert_eq!(resource(&handler.shortcut("license")), Some("/license.html"));
    assert_eq!(resource(&handler.shortcut("processes")), Some("/processes.html"));
    assert_eq!(resource(&handler.shortcut("history")), Some("/history.html"));
    assert!(matches!(handler.shortcut("process-list"), ServoShortcut::ProcessList));
    assert!(matches!(
        handler.shortcut("experimental-preferences"),
        ServoShortcut::ExperimentalPreferences
    ));
    assert!(matches!(handler.shortcut("default-user-agent"), ServoShortcut::DefaultUserAgent));
    assert!(matches!(handler.shortcut("nope"), ServoShortcut::Invalid));
    assert!(matches!(handler.shortcut(""), ServoShortcut::Invalid));
    assert_eq!(handler.privileged_paths(), vec!["config", "preferences"]);
    assert!(handler.is_fetchable());
}

#[test]
fn web_content_is_refused_the_process_list() {
    let handler = ServoProtocolHandler::new();
    assert!(request_is_from_web_content(&source(Some("https"), None)));
    assert!(request_is_from_web_content(&source(None, Some("http"))));
    assert!(request_is_from_web_content(&source(Some("servo"), Some("wss"))));
    assert!(request_is_from_web_content(&source(Some("ftp"), None)));
    assert!(!request_is_from_web_content(&source(Some("servo"), None)));
    assert!(!request_is_from_web_content(&source(None, Some("file"))));
    assert!(!request_is_from_web_content(&source(None, None)));
    assert!(matches!(
        handler.plan_load("process-list", &source(Some("https"), None)),
        ServoShortcut::Forbidden
    ));
    assert!(matches!(
        handler.plan_load("process-list", &source(Some("servo"), None)),
        ServoShortcut::ProcessList
    ));
    assert_eq!(
        resource(&handler.plan_load("config", &source(Some("https"), None))),
        Some("/config.html")
    );
}

#[test]
fn json_bodies_quote_their_strings() {
    assert_eq!(experimental_preferences_json(&[]), "[]");
    assert_eq!(
        experimental_preferences_json(&["dom.a".to_owned(), "layout.b".to_owned()]),
        "[\"dom.a\",\"layout.b\"]"
    );
    assert_eq!(default_user_agent_json("Mozilla/5.0"), "\"Mozilla/5.0\"");
}

#[test]
fn process_list_samples_through_the_handler() {
    let mut handler = ServoProtocolHandler::new();
    let p = |ticks: u64| RawProcess {
        pid: 9,
        ppid: 1,
        name: "Browser".to_owned(),
        memory: Some(1),
        cpu_ticks: ticks,
        threads: Vec::new(),
    };
    let first = handler.process_list(vec![p(10)], true, &[], &[]);
    assert_eq!(first[0].cpu_delta, None);
    let second = handler.process_list(vec![p(25)], true, &[], &[]);
    assert_eq!(second[0].cpu_delta, Some(15));
}

#[test]
fn toolbar_textures_are_named_by_icon_and_size() {
    assert_eq!(ToolbarIcon::Home.texture_name(), "toolbar-home");
    assert_eq!(ToolbarIcon::Reload.texture_name(), "toolbar-reload");
    assert_eq!(ToolbarIcon::Stop.texture_name(), "toolbar-stop");
    assert_eq!(ToolbarIcon::Stop.texture_key(28), "toolbar-stop@28");
    assert_eq!(ToolbarIcon::Home.texture_key(0), "toolbar-home@0");
}

#[test]
fn menu_state_follows_clicks_and_closing() {
    let mut menu = AppMenuState::new();
    assert!(!menu.is_open());
    assert_eq!(menu.page, AppMenuPage::Root);
    assert_eq!(menu.popup_drawn(true, None), None);
    assert!(menu.is_open());
    assert_eq!(menu.click(MenuClick::MoreTools), None);
    assert_eq!(menu.page, AppMenuPage::MoreTools);
    assert!(menu.keeps_root_height());
    assert_eq!(menu.click(MenuClick::Back), None);
    assert_eq!(menu.page, AppMenuPage::Root);
    assert!(!menu.keeps_root_height());
    assert_eq!(menu.click(MenuClick::MoreTools), None);
    let action = menu.click(MenuClick::Action(AppMenuAction::Processes));
    assert_eq!(menu.popup_drawn(true, action), Some(AppMenuAction::Processes));
    assert_eq!(menu.popup_drawn(false, None), None);
    assert!(!menu.is_open());
    assert_eq!(menu.page, AppMenuPage::Root);
}

#[test]
fn closing_the_menu_resets_its_page() {
    let mut menu = AppMenuState::new();
    menu.open = true;
    menu.page = AppMenuPage::MoreTools;
    menu.close();
    assert!(!menu.is_open());
    assert_eq!(menu.page, AppMenuPage::Root);
}

#[test]
fn default_menu_is_closed() {
    let menu = AppMenuState::new();
    assert!(!menu.is_open());
    assert_eq!(menu.page, AppMenuPage::Root);
}

#[test]
fn close_clears_open_state() {
    let mut menu = AppMenuState::new();
    menu.open = true;
    menu.close();
    assert!(!menu.is_open());
}

#[test]
fn close_returns_to_the_root_page() {
    let mut menu = AppMenuState::new();
    menu.page = AppMenuPage::MoreTools;
    menu.close();
    assert_eq!(menu.page, AppMenuPage::Root);
}

#[test]
fn child_page_keeps_the_root_menu_height() {
    let mut menu = AppMenuState::new();
    assert!(!menu.keeps_root_height());
    menu.page = AppMenuPage::MoreTools;
    assert!(menu.keeps_root_height());
    menu.page = AppMenuPage::Root;
    assert!(!menu.keeps_root_height());
}
