use obs_overlay_exporter::json::{JsonNumber, JsonValue};
use obs_overlay_exporter::parser::{
    list_scenes, media_kind, parse_scene, try_parse_scene, MediaKind, SceneItem, REAL_1080_BITS,
    REAL_1920_BITS, REAL_ONE_BITS,
};

fn s(v: &str) -> JsonValue {
    JsonValue::Str(v.to_string())
}

fn num(n: i64) -> JsonValue {
    JsonValue::Number(JsonNumber { as_i64: Some(n), as_f64_bits: (n as f64).to_bits() })
}

fn float(x: f64) -> JsonValue {
    JsonValue::Number(JsonNumber { as_i64: None, as_f64_bits: x.to_bits() })
}

fn obj(members: Vec<(&str, JsonValue)>) -> JsonValue {
    JsonValue::Object(members.into_iter().map(|(k, v)| (k.to_string(), v)).collect())
}

fn arr(items: Vec<JsonValue>) -> JsonValue {
    JsonValue::Array(items)
}

fn entry(name: &str, uuid: &str, visible: bool, id: i64) -> JsonValue {
    obj(vec![
        ("name", s(name)),
        ("source_uuid", s(uuid)),
        ("visible", JsonValue::Bool(visible)),
        ("id", num(id)),
    ])
}

fn collection() -> JsonValue {
    let main_items = arr(vec![
        obj(vec![
            ("name", s("Logo")),
            ("source_uuid", s("u1")),
            ("visible", JsonValue::Bool(true)),
            ("id", num(1)),
            ("pos", obj(vec![("x", float(10.5)), ("y", num(20))])),
            ("align", num(0)),
        ]),
        entry("Caption", "u2", false, 2),
        entry("Clip", "u3", true, 3),
        entry("Grp", "g1", true, 4),
        entry("Inner", "u4", true, 5),
        entry("Chat", "u5", true, 6),
    ]);
    obj(vec![
        ("resolution", obj(vec![("x", num(1280)), ("y", num(720))])),
        (
            "sources",
            arr(vec![
                obj(vec![
                    ("id", s("scene")),
                    ("name", s("Main")),
                    ("uuid", s("s1")),
                    ("settings", obj(vec![("items", main_items)])),
                ]),
                obj(vec![
                    ("id", s("image_source")),
                    ("name", s("Logo")),
                    ("uuid", s("u1")),
                    ("settings", obj(vec![("file", s("/img/logo.png"))])),
                ]),
                obj(vec![
                    ("id", s("text_gdiplus_v3")),
                    ("name", s("Caption")),
                    ("uuid", s("u2")),
                    (
                        "settings",
                        obj(vec![
                            ("text", s("JÃ¡")),
                            ("font", obj(vec![("face", s("Impact")), ("size", num(48)), ("flags", num(3))])),
                        ]),
                    ),
                ]),
                obj(vec![
                    ("id", s("ffmpeg_source")),
                    ("name", s("Clip")),
                    ("uuid", s("u3")),
                    ("settings", obj(vec![("local_file", s("/v/clip.GIF"))])),
                ]),
                obj(vec![
                    ("id", s("image_source")),
                    ("name", s("Inner")),
                    ("uuid", s("u4")),
                    ("settings", obj(vec![("file", s("/img/inner.png"))])),
                ]),
                obj(vec![
                    ("id", s("browser_source")),
                    ("name", s("Chat")),
                    ("uuid", s("u5")),
                    ("settings", obj(vec![("url", s("  https://chat.example/  "))])),
                ]),
                obj(vec![
                    ("id", s("scene")),
                    ("name", s("Cen\u{c3}\u{a1}rio")),
                    ("uuid", s("s2")),
                    ("settings", obj(vec![("items", arr(vec![]))])),
                ]),
            ]),
        ),
        (
            "groups",
            arr(vec![obj(vec![
                ("id", s("group")),
                ("name", s("Grp")),
                ("uuid", s("g1")),
                ("settings", obj(vec![("items", arr(vec![entry("Inner", "u4", true, 7)]))])),
            ])]),
        ),
    ])
}

#[test]
fn list_scenes_repairs_names() {
    let names = list_scenes(&collection()).unwrap();
    assert_eq!(names, vec!["Main".to_string(), "Cenário".to_string()]);
}

#[test]
fn list_scenes_without_scenes() {
    let json = obj(vec![("sources", arr(vec![obj(vec![("id", s("image_source"))])]))]);
    assert_eq!(list_scenes(&json), Err("Nenhuma cena encontrada neste arquivo.".to_string()));
    assert_eq!(list_scenes(&JsonValue::Null), Err("Nenhuma cena encontrada neste arquivo.".to_string()));
}

#[test]
fn parse_visible_items_only() {
    let scene = parse_scene(&collection(), "Main", true).unwrap();
    assert_eq!(scene.name, "Main");
    assert_eq!(scene.canvas.x.bits, 1280f64.to_bits());
    assert_eq!(scene.canvas.y.bits, 720f64.to_bits());
    // Logo, Clip, Grp (with Inner), Chat; the hidden caption and the group's
    // child listed at the top are left out.
    assert_eq!(scene.items.len(), 4);
    match &scene.items[0] {
        SceneItem::Image { base, file } => {
            assert_eq!(file, "/img/logo.png");
            assert_eq!(base.name, "Logo");
            assert_eq!(base.id, "item-1");
            assert!(base.visible);
            assert_eq!(base.pos.x.bits, 10.5f64.to_bits());
            assert_eq!(base.pos.y.bits, 20f64.to_bits());
            assert_eq!(base.scale.x.bits, REAL_ONE_BITS);
            assert_eq!(base.item_align, 0);
        }
        _ => panic!("expected an image"),
    }
    match &scene.items[1] {
        SceneItem::Gif { file, base } => {
            assert_eq!(file, "/v/clip.GIF");
            assert_eq!(base.item_align, 5);
        }
        _ => panic!("expected a GIF"),
    }
    match &scene.items[2] {
        SceneItem::Group { base, items } => {
            assert_eq!(base.name, "Grp");
            assert_eq!(items.len(), 1);
            match &items[0] {
                SceneItem::Image { base, file } => {
                    assert_eq!(file, "/img/inner.png");
                    assert_eq!(base.id, "item-7");
                }
                _ => panic!("expected the group's image"),
            }
        }
        _ => panic!("expected a group"),
    }
    match &scene.items[3] {
        SceneItem::Browser { url, width, height, .. } => {
            assert_eq!(url, "https://chat.example/");
            assert_eq!(width.bits, 1280f64.to_bits());
            assert_eq!(height.bits, 720f64.to_bits());
        }
        _ => panic!("expected a browser source"),
    }
    assert!(scene.fonts.is_empty());
}

#[test]
fn parse_all_items() {
    let scene = parse_scene(&collection(), "Main", false).unwrap();
    assert_eq!(scene.items.len(), 5);
    match &scene.items[1] {
        SceneItem::Text { base, text, font_face, font_size, font_bold, font_italic, outline_size, text_align, .. } => {
            assert!(!base.visible);
            assert_eq!(text, "Já");
            assert_eq!(font_face, "Impact");
            assert_eq!(font_size.bits, 48f64.to_bits());
            assert!(*font_bold);
            assert!(*font_italic);
            assert_eq!(*outline_size, 3);
            assert_eq!(text_align, "left");
        }
        _ => panic!("expected a text"),
    }
    assert_eq!(scene.fonts, vec!["Impact".to_string()]);
}

#[test]
fn parse_scene_by_repaired_name() {
    let scene = parse_scene(&collection(), "Cenário", true).unwrap();
    assert_eq!(scene.name, "Cenário");
    assert!(scene.items.is_empty());
    // No resolution: the default canvas.
    let json = obj(vec![(
        "sources",
        arr(vec![obj(vec![("id", s("scene")), ("name", s("A"))])]),
    )]);
    let scene = parse_scene(&json, "A", true).unwrap();
    assert_eq!(scene.canvas.x.bits, REAL_1920_BITS);
    assert_eq!(scene.canvas.y.bits, REAL_1080_BITS);
}

#[test]
fn parse_missing_scene_lists_scenes() {
    let err = parse_scene(&collection(), "Nope", true).err().unwrap();
    assert_eq!(
        err,
        "Cena \"Nope\" não encontrada.\nCenas disponíveis:\n  • Main\n  • Cenário"
    );
}

#[test]
fn nested_scene_becomes_group() {
    let json = obj(vec![(
        "sources",
        arr(vec![
            obj(vec![
                ("id", s("scene")),
                ("name", s("Outer")),
                ("settings", obj(vec![("items", arr(vec![entry("Inner scene", "s2", true, 1)]))])),
            ]),
            obj(vec![
                ("id", s("scene")),
                ("name", s("Inner scene")),
                ("uuid", s("s2")),
                (
                    "settings",
                    obj(vec![(
                        "items",
                        arr(vec![obj(vec![("name", s("Color")), ("source_uuid", s("c1"))])]),
                    )]),
                ),
            ]),
            obj(vec![
                ("id", s("color_source_v3")),
                ("name", s("Color")),
                ("uuid", s("c1")),
                ("settings", obj(vec![("color", num(4278190335)), ("width", num(100))])),
            ]),
        ]),
    )]);
    let scene = parse_scene(&json, "Outer", true).unwrap();
    assert_eq!(scene.items.len(), 1);
    match &scene.items[0] {
        SceneItem::Group { items, .. } => {
            assert_eq!(items.len(), 1);
            match &items[0] {
                SceneItem::Color { color, width, height, base } => {
                    assert_eq!(*color, Some(4278190335));
                    assert_eq!(width.bits, 100f64.to_bits());
                    assert_eq!(height.bits, REAL_1080_BITS);
                    assert!(base.visible);
                }
                _ => panic!("expected a colour source"),
            }
        }
        _ => panic!("expected the nested scene as a group"),
    }
}

#[test]
fn cyclic_scenes_are_reported() {
    let json = obj(vec![(
        "sources",
        arr(vec![obj(vec![
            ("id", s("scene")),
            ("name", s("Loop")),
            ("uuid", s("l1")),
            ("settings", obj(vec![("items", arr(vec![entry("Loop", "l1", true, 1)]))])),
        ])]),
    )]);
    assert!(try_parse_scene(&json, "Loop", true).is_none());
    assert!(try_parse_scene(&collection(), "Main", true).is_some());
}

#[test]
fn hidden_by_number() {
    let json = obj(vec![(
        "sources",
        arr(vec![
            obj(vec![
                ("id", s("scene")),
                ("name", s("A")),
                (
                    "settings",
                    obj(vec![(
                        "items",
                        arr(vec![obj(vec![("name", s("Img")), ("source_uuid", s("i")), ("visible", num(0))])]),
                    )]),
                ),
            ]),
            obj(vec![("id", s("image_source")), ("name", s("Img")), ("uuid", s("i"))]),
        ]),
    )]);
    assert_eq!(parse_scene(&json, "A", true).unwrap().items.len(), 0);
    let all = parse_scene(&json, "A", false).unwrap();
    match &all.items[0] {
        SceneItem::Image { base, file } => {
            assert!(!base.visible);
            assert_eq!(file, "");
        }
        _ => panic!("expected an image"),
    }
}

#[test]
fn media_kinds() {
    assert!(matches!(media_kind("gif"), MediaKind::Gif));
    assert!(matches!(media_kind("mp3"), MediaKind::Audio));
    assert!(matches!(media_kind("flac"), MediaKind::Audio));
    assert!(matches!(media_kind("mp4"), MediaKind::Video));
    assert!(matches!(media_kind("GIF"), MediaKind::Video));
}

#[test]
fn item_file_paths() {
    let scene = parse_scene(&collection(), "Main", false).unwrap();
    assert_eq!(scene.items[0].file(), Some("/img/logo.png"));
    assert_eq!(scene.items[1].file(), None);
    assert_eq!(scene.items[2].file(), Some("/v/clip.GIF"));
    assert_eq!(scene.items[3].file(), None);
}

#[test]
fn every_listed_scene_parses() {
    let json = collection();
    for name in list_scenes(&json).unwrap() {
        assert!(parse_scene(&json, &name, true).is_ok());
        assert!(parse_scene(&json, &name, false).is_ok());
    }
}
