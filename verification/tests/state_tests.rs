use print_ui::app_state::{AppState, Effect, Params, ViewCore, ViewState, Workspace};
use print_ui::client::Client;
use print_ui::codec::{decode_frame, Frame};
use print_ui::json::{Json, Member};
use print_ui::router::{route, RpcOperations, Style};
use print_ui::text_count::count;
use print_ui::watcher::{
    applies_to_path, unwatch_plan, wants_event, watch_plan, FsEvent, FsEventKind, Watchee,
    WatchToken,
};

fn key(s: &str) -> Vec<u8> {
    s.as_bytes().to_vec()
}

fn obj(members: Vec<(&str, Json)>) -> Json {
    Json::Obj(
        members
            .into_iter()
            .map(|(k, v)| Member { key: key(k), value: v })
            .collect(),
    )
}

fn fresh_state() -> AppState {
    AppState {
        title: String::new(),
        workspace: Workspace::default(),
        theme: Json::Null,
        theme_name: Vec::new(),
        styles: Vec::new(),
        themes: Vec::new(),
        params: Params::default(),
        entry: print_ui::file_tree::FileEntry::new(String::new()),
        view: ViewCore::default(),
        view_id: 0,
        current_file: None,
        current_dir: None,
        last_dir: None,
    }
}

fn style_of(state: &AppState, id: u64) -> Option<Style> {
    state
        .styles
        .iter()
        .find(|(sid, _)| *sid == id)
        .map(|(_, s)| *s)
}

#[test]
fn theme_change_sets_selection_style() {
    let mut state = fresh_state();
    let params = obj(vec![
        ("name", Json::Str(key("InspiredGitHub"))),
        (
            "theme",
            obj(vec![
                (
                    "selection_foreground",
                    obj(vec![
                        ("r", Json::Num(key("16"))),
                        ("g", Json::Num(key("32"))),
                        ("b", Json::Num(key("48"))),
                        ("a", Json::Num(key("255"))),
                    ]),
                ),
            ]),
        ),
    ]);
    let op = route(key("theme_changed"), params).unwrap();
    let effects = state.handle_event(op);
    assert!(effects.is_empty());
    assert_eq!(state.theme_name, key("InspiredGitHub"));
    let selection = style_of(&state, 0).expect("selection style set");
    assert_eq!(selection.fg_color, Some(0xff102030));
    assert_eq!(selection.bg_color, None);
}

#[test]
fn def_style_updates_the_table() {
    let mut state = fresh_state();
    let params = obj(vec![
        ("id", Json::Num(key("3"))),
        ("fg_color", Json::Num(key("255"))),
    ]);
    let op = route(key("def_style"), params).unwrap();
    assert!(state.handle_event(op).is_empty());
    assert_eq!(style_of(&state, 3).unwrap().fg_color, Some(255));
    // a second definition under the same identifier replaces the first
    let params = obj(vec![("id", Json::Num(key("3")))]);
    let op = route(key("def_style"), params).unwrap();
    assert!(state.handle_event(op).is_empty());
    assert_eq!(style_of(&state, 3).unwrap().fg_color, None);
    assert_eq!(state.styles.len(), 1);
}

#[test]
fn language_listing_sets_the_default_language() {
    let mut state = fresh_state();
    let params = obj(vec![("languages", Json::Arr(vec![Json::Str(key("Rust"))]))]);
    let op = route(key("available_languages"), params).unwrap();
    let effects = state.handle_event(op);
    assert_eq!(effects.len(), 1);
    let Effect::Send(line) = &effects[0] else {
        panic!("expected a notification to send");
    };
    assert_eq!(
        String::from_utf8(line.clone()).unwrap(),
        "{\"method\":\"set_language\",\"params\":{\"view_id\":\"view-id-1\",\"language_id\":\"JavaScript\"}}\n"
    );
    // with a focused view, the language is set on it
    state.view.focused = Some(key("view-id-9"));
    let params = obj(vec![("languages", Json::Arr(vec![]))]);
    let op = route(key("available_languages"), params).unwrap();
    let effects = state.handle_event(op);
    let Effect::Send(line) = &effects[0] else {
        panic!("expected a notification to send");
    };
    assert!(String::from_utf8(line.clone())
        .unwrap()
        .contains("\"view_id\":\"view-id-9\""));
}

#[test]
fn theme_listing_is_offered_up() {
    let mut state = fresh_state();
    let params = obj(vec![(
        "themes",
        Json::Arr(vec![Json::Str(key("light")), Json::Str(key("dark"))]),
    )]);
    let op = route(key("available_themes"), params).unwrap();
    let effects = state.handle_event(op);
    assert_eq!(effects, vec![Effect::ListThemes(vec![key("light"), key("dark")])]);
}

#[test]
fn set_theme_remembers_and_notifies() {
    let mut state = fresh_state();
    let line = state.set_theme("Solarized");
    assert_eq!(state.theme_name, key("Solarized"));
    assert_eq!(
        String::from_utf8(line).unwrap(),
        "{\"method\":\"set_theme\",\"params\":{\"theme_name\":\"Solarized\"}}\n"
    );
}

#[test]
fn client_handshake_lines() {
    let mut client: Client<u32> = Client::new();
    let line = client.client_started(Some("config"), None);
    assert_eq!(
        String::from_utf8(line).unwrap(),
        "{\"method\":\"client_started\",\"params\":{\"config_dir\":\"config\",\"client_extras_dir\":null}}\n"
    );
    let line = client.resize(1024, 768);
    assert_eq!(
        String::from_utf8(line).unwrap(),
        "{\"method\":\"resize\",\"params\":{\"width\":1024,\"height\":768}}\n"
    );
    let line = client.modify_user_config_domain(
        "general",
        obj(vec![("tab_size", Json::Num(key("4")))]),
    );
    assert_eq!(
        String::from_utf8(line).unwrap(),
        "{\"method\":\"modify_user_config\",\"params\":{\"domain\":\"general\",\"changes\":{\"tab_size\":4}}}\n"
    );
    let (id, line) = client.new_view("a.txt", 7);
    assert_eq!(id, 0);
    let decoded = decode_frame(&line).unwrap();
    assert!(matches!(decoded, Frame::Request { id: 0, .. }));
}

#[test]
fn watch_events_route_by_path() {
    let w = Watchee { path: "/p/src".to_string(), recursive: false, token: WatchToken(1) };
    let hit = FsEvent { kind: FsEventKind::Modify, paths: vec!["/p/src/a.rs".to_string()] };
    let nested = FsEvent { kind: FsEventKind::Modify, paths: vec!["/p/src/x/a.rs".to_string()] };
    let outside = FsEvent { kind: FsEventKind::Modify, paths: vec!["/p/other".to_string()] };
    let sibling = FsEvent { kind: FsEventKind::Modify, paths: vec!["/p/srcx".to_string()] };
    assert!(wants_event(&w, &hit));
    assert!(!wants_event(&w, &nested));
    assert!(!wants_event(&w, &outside));
    assert!(!wants_event(&w, &sibling));
    let deep = Watchee { path: "/p/src".to_string(), recursive: true, token: WatchToken(1) };
    assert!(wants_event(&deep, &nested));
    // a rename matches on either of its two names
    let rename = FsEvent {
        kind: FsEventKind::RenameBoth,
        paths: vec!["/q/old".to_string(), "/p/src/new".to_string()],
    };
    assert!(wants_event(&w, &rename));
    // the watched path itself is covered
    let own = FsEvent { kind: FsEventKind::Remove, paths: vec!["/p/src".to_string()] };
    assert!(wants_event(&w, &own));
    assert!(applies_to_path(&w, &"/p/src".to_string()));
}

#[test]
fn unwatch_plans_the_monitor_work() {
    let mut watchees = vec![
        Watchee { path: "/p".to_string(), recursive: true, token: WatchToken(1) },
        Watchee { path: "/p/sub".to_string(), recursive: false, token: WatchToken(2) },
        Watchee { path: "/q".to_string(), recursive: false, token: WatchToken(3) },
    ];
    let plan = unwatch_plan(&mut watchees, &"/p".to_string(), WatchToken(1))
        .expect("the registration exists");
    assert!(plan.os_unwatch);
    assert_eq!(plan.readd, vec![("/p/sub".to_string(), false)]);
    assert_eq!(watchees.len(), 2);
    // unwatching what is not registered changes nothing
    assert!(unwatch_plan(&mut watchees, &"/p".to_string(), WatchToken(1)).is_none());
    assert_eq!(watchees.len(), 2);
}

#[test]
fn word_count_saturating_edges() {
    assert_eq!(count(&"   \n\t\n".to_string()), 0);
    assert_eq!(count(&"one".to_string()), 1);
}

#[test]
fn watch_plan_says_when_the_monitor_must_start() {
    let mut watchees = Vec::new();
    let fresh = watch_plan(
        &mut watchees,
        Watchee { path: "/p".to_string(), recursive: true, token: WatchToken(1) },
    );
    assert!(fresh);
    let fresh = watch_plan(
        &mut watchees,
        Watchee { path: "/p".to_string(), recursive: false, token: WatchToken(2) },
    );
    assert!(!fresh);
    let fresh = watch_plan(
        &mut watchees,
        Watchee { path: "/q".to_string(), recursive: false, token: WatchToken(3) },
    );
    assert!(fresh);
    assert_eq!(watchees.len(), 3);
}

#[test]
fn open_view_focuses_and_replaces_by_id() {
    let mut view = ViewCore::default();
    view.open_view(b"view-id-1".to_vec(), ViewState { id: 0, filename: Some("a".to_string()) });
    assert_eq!(view.focused.as_deref(), Some(&b"view-id-1"[..]));
    assert_eq!(view.views.len(), 1);
    view.open_view(b"view-id-2".to_vec(), ViewState { id: 0, filename: None });
    assert_eq!(view.focused.as_deref(), Some(&b"view-id-2"[..]));
    assert_eq!(view.views.len(), 2);
    // reopening an identifier replaces its record instead of doubling it
    view.open_view(b"view-id-1".to_vec(), ViewState { id: 0, filename: Some("b".to_string()) });
    assert_eq!(view.views.len(), 2);
}

#[test]
fn disconnection_is_an_operation_of_its_own() {
    let mut state = fresh_state();
    // the one event teardown surfaces needs no state change here; the
    // consumer shows it
    let effects = state.handle_event(RpcOperations::Disconnected);
    assert!(effects.is_empty());
}

#[test]
fn next_request_id_tracks_the_counter() {
    let mut client: Client<u32> = Client::new();
    assert_eq!(client.next_request_id(), 0);
    client.send_request("a", obj(vec![]), 1);
    assert_eq!(client.next_request_id(), 1);
    assert!(client.next_request_id() < u64::MAX);
}
