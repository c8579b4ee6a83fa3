use print_ui::json::{Json, Member};
use print_ui::router::{route, RouteError, RpcOperations};

fn key(s: &str) -> Vec<u8> {
    s.as_bytes().to_vec()
}

fn obj(members: Vec<(&str, Json)>) -> Json {
    Json::Obj(
        members
            .into_iter()
            .map(|(k, v)| Member { key: key(k), value: v })
            .collect(),
    )
}

#[test]
fn routes_update() {
    let params = obj(vec![
        ("view_id", Json::Str(key("view-id-1"))),
        ("update", obj(vec![("ops", Json::Arr(vec![]))])),
    ]);
    match route(key("update"), params) {
        Ok(RpcOperations::Update(u)) => {
            assert_eq!(u.view_id, key("view-id-1"));
            assert_eq!(u.update, obj(vec![("ops", Json::Arr(vec![]))]));
        }
        other => panic!("expected an update, got {:?}", other),
    }
}

#[test]
fn routes_scroll_to() {
    let params = obj(vec![
        ("view_id", Json::Str(key("view-id-1"))),
        ("line", Json::Num(key("12"))),
        ("col", Json::Num(key("4"))),
    ]);
    match route(key("scroll_to"), params) {
        Ok(RpcOperations::ScrollTo(s)) => {
            assert_eq!(s.view_id, key("view-id-1"));
            assert_eq!((s.line, s.col), (12, 4));
        }
        other => panic!("expected a scroll, got {:?}", other),
    }
}

#[test]
fn routes_def_style() {
    let params = obj(vec![
        ("id", Json::Num(key("2"))),
        ("fg_color", Json::Num(key("4278190080"))),
        ("italic", Json::Bool(true)),
    ]);
    match route(key("def_style"), params) {
        Ok(RpcOperations::DefStyle(s)) => {
            assert_eq!(s.id, 2);
            assert_eq!(s.fg_color, Some(0xff000000));
            assert_eq!(s.bg_color, None);
            assert_eq!(s.weight, None);
            assert_eq!(s.italic, Some(true));
            assert_eq!(s.underline, None);
        }
        other => panic!("expected a style, got {:?}", other),
    }
}

#[test]
fn def_style_color_must_fit() {
    let params = obj(vec![
        ("id", Json::Num(key("2"))),
        ("fg_color", Json::Num(key("4294967296"))),
    ]);
    assert_eq!(route(key("def_style"), params), Err(RouteError::InvalidPayload));
}

#[test]
fn routes_available_themes() {
    let params = obj(vec![(
        "themes",
        Json::Arr(vec![Json::Str(key("light")), Json::Str(key("dark"))]),
    )]);
    match route(key("available_themes"), params) {
        Ok(RpcOperations::AvailableThemes(t)) => {
            assert_eq!(t.themes, vec![key("light"), key("dark")]);
        }
        other => panic!("expected themes, got {:?}", other),
    }
}

#[test]
fn routes_available_languages() {
    let params = obj(vec![(
        "languages",
        Json::Arr(vec![Json::Str(key("Rust"))]),
    )]);
    match route(key("available_languages"), params) {
        Ok(RpcOperations::AvailableLanguages(l)) => {
            assert_eq!(l.languages, vec![key("Rust")]);
        }
        other => panic!("expected languages, got {:?}", other),
    }
}

#[test]
fn routes_plugin_started_and_language_changed() {
    let params = obj(vec![
        ("view_id", Json::Str(key("v1"))),
        ("plugin", Json::Str(key("syntect"))),
    ]);
    assert!(matches!(
        route(key("plugin_started"), params),
        Ok(RpcOperations::PluginStarted(_))
    ));
    let params = obj(vec![
        ("view_id", Json::Str(key("v1"))),
        ("language_id", Json::Str(key("Rust"))),
    ]);
    match route(key("language_changed"), params) {
        Ok(RpcOperations::LanguageChanged(l)) => {
            assert_eq!(l.language_id, key("Rust"));
        }
        other => panic!("expected a language change, got {:?}", other),
    }
}

#[test]
fn routes_alert() {
    let params = obj(vec![("msg", Json::Str(key("saved")))]);
    match route(key("alert"), params) {
        Ok(RpcOperations::Alert(a)) => assert_eq!(a.msg, key("saved")),
        other => panic!("expected an alert, got {:?}", other),
    }
}

#[test]
fn unknown_method_comes_back_by_name() {
    match route(key("not_a_real_method"), obj(vec![])) {
        Err(RouteError::UnknownMethod(m)) => assert_eq!(m, key("not_a_real_method")),
        other => panic!("expected unknown method, got {:?}", other),
    }
}

#[test]
fn known_method_with_wrong_shape_is_invalid_payload() {
    for (method, params) in [
        ("update", obj(vec![("view_id", Json::Str(key("v")))])),
        ("scroll_to", obj(vec![("view_id", Json::Str(key("v"))), ("line", Json::Str(key("x"))), ("col", Json::Num(key("1")))])),
        ("alert", obj(vec![("msg", Json::Num(key("5")))])),
        ("available_themes", obj(vec![("themes", Json::Arr(vec![Json::Num(key("1"))]))])),
        ("theme_changed", Json::Arr(vec![])),
    ] {
        assert_eq!(
            route(key(method), params),
            Err(RouteError::InvalidPayload),
            "method {}",
            method
        );
    }
}

#[test]
fn first_occurrence_of_a_key_wins() {
    let params = Json::Obj(vec![
        Member { key: key("msg"), value: Json::Str(key("first")) },
        Member { key: key("msg"), value: Json::Str(key("second")) },
    ]);
    match route(key("alert"), params) {
        Ok(RpcOperations::Alert(a)) => assert_eq!(a.msg, key("first")),
        other => panic!("expected an alert, got {:?}", other),
    }
}
