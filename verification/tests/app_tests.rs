use obs_overlay_exporter::app::{
    export_done_message, items_found_message, loggable, App, LoadOutcome, Msg,
};
use obs_overlay_exporter::assets::AssetEntry;
use obs_overlay_exporter::doc::{NumFmt, Token};
use obs_overlay_exporter::json::{JsonNumber, JsonValue};
use obs_overlay_exporter::parser::{
    parse_scene, BaseItem, Bounds, Pos, Real, Scale, SceneItem,
};

fn line(doc: &[Token]) -> String {
    let mut out = String::new();
    for t in doc {
        match t {
            Token::Ch(c) => out.push(*c),
            Token::Num(NumFmt::Display(r)) => out.push_str(&format!("{}", f64::from_bits(r.bits))),
            Token::Num(NumFmt::Fixed { value, digits }) => {
                out.push_str(&format!("{:.*}", *digits as usize, f64::from_bits(value.bits)))
            }
            Token::Num(_) => out.push('#'),
        }
    }
    out
}

fn log(app: &App) -> Vec<String> {
    app.log.iter().map(|d| line(d)).collect()
}

fn s(v: &str) -> JsonValue {
    JsonValue::Str(v.to_string())
}

fn obj(members: Vec<(&str, JsonValue)>) -> JsonValue {
    JsonValue::Object(members.into_iter().map(|(k, v)| (k.to_string(), v)).collect())
}

fn scene_source(name: &str, items: Vec<JsonValue>) -> JsonValue {
    obj(vec![
        ("id", s("scene")),
        ("name", s(name)),
        ("settings", obj(vec![("items", JsonValue::Array(items))])),
    ])
}

fn two_scenes() -> JsonValue {
    let item = obj(vec![
        ("name", s("Logo")),
        ("source_uuid", s("u1")),
        ("visible", JsonValue::Bool(false)),
        ("id", JsonValue::Number(JsonNumber { as_i64: Some(3), as_f64_bits: 3f64.to_bits() })),
        ("align", JsonValue::Number(JsonNumber { as_i64: Some(5), as_f64_bits: 5f64.to_bits() })),
        (
            "pos",
            obj(vec![
                ("x", JsonValue::Number(JsonNumber { as_i64: None, as_f64_bits: 12.6f64.to_bits() })),
                ("y", JsonValue::Number(JsonNumber { as_i64: Some(4), as_f64_bits: 4f64.to_bits() })),
            ]),
        ),
    ]);
    obj(vec![(
        "sources",
        JsonValue::Array(vec![
            scene_source("Main", vec![item]),
            scene_source("Second", vec![]),
            obj(vec![
                ("id", s("image_source")),
                ("name", s("Logo")),
                ("uuid", s("u1")),
                ("settings", obj(vec![("file", s("/img/logo.png"))])),
            ]),
        ]),
    )])
}

fn zero_base(name: &str) -> BaseItem {
    let zero = Real { bits: 0 };
    BaseItem {
        id: "item-1".to_string(),
        name: name.to_string(),
        visible: true,
        pos: Pos { x: zero, y: zero },
        scale: Scale { x: zero, y: zero },
        rot: zero,
        bounds_type: 0,
        bounds: Bounds { x: zero, y: zero },
        filters: Vec::new(),
        item_align: 5,
    }
}

fn text_item(text: &str) -> SceneItem {
    let zero = Real { bits: 0 };
    SceneItem::Text {
        base: zero_base("T"),
        text: text.to_string(),
        font_face: "Arial".to_string(),
        font_size: Real { bits: 30f64.to_bits() },
        font_bold: false,
        font_italic: false,
        color: None,
        opacity: zero,
        bk_color: None,
        bk_opacity: zero,
        outline: false,
        outline_size: 0,
        outline_color: None,
        text_align: "left".to_string(),
        drop_shadow: false,
        custom_width: 0,
        vertical: false,
    }
}

#[test]
fn default_state() {
    let app = App::default();
    assert!(app.json_path.is_empty());
    assert!(app.json_content.is_none());
    assert!(app.scenes.is_empty());
    assert!(app.selected.is_none());
    assert!(app.only_visible);
    assert!(app.log.is_empty());
    assert!(!app.exporting);
    assert!(app.output_path.is_none());
    assert!(!app.can_export());
}

#[test]
fn load_reports_errors() {
    let mut app = App::default();
    app.load_json(LoadOutcome::Unreadable("No such file".to_string()));
    assert_eq!(log(&app), vec!["✗ Não foi possível abrir o arquivo: No such file".to_string()]);
    app.load_json(LoadOutcome::InvalidJson("expected value at line 1".to_string()));
    assert_eq!(log(&app), vec!["✗ JSON inválido: expected value at line 1".to_string()]);
    assert!(app.scenes.is_empty());
    app.load_json(LoadOutcome::Parsed { content: "{}".to_string(), json: obj(vec![]) });
    assert_eq!(log(&app), vec!["⚠ Nenhuma cena encontrada no arquivo.".to_string()]);
    assert!(app.json_content.is_none());
}

#[test]
fn load_select_and_export() {
    let mut app = App::default();
    app.load_json(LoadOutcome::Parsed { content: "text".to_string(), json: two_scenes() });
    assert!(app.log.is_empty());
    assert_eq!(app.scenes, vec!["Main".to_string(), "Second".to_string()]);
    assert_eq!(app.json_content, Some("text".to_string()));
    assert!(!app.can_export());

    let picked = app.select_scene(1);
    assert_eq!(picked, Some(("Second".to_string(), "text".to_string())));
    assert_eq!(app.selected, Some(1));
    assert!(app.can_export());

    let job = app.begin_export("/out/cenas/Second").unwrap();
    assert_eq!(job.scene_name, "Second");
    assert_eq!(job.json_content, "text");
    assert!(job.only_visible);
    assert!(app.exporting);
    assert!(!app.can_export());
    assert_eq!(
        log(&app),
        vec!["→ Exportando cena: Second".to_string(), "  Destino: /out/cenas/Second".to_string()]
    );

    app.on_message(Msg::Log(items_found_message(3)));
    assert_eq!(log(&app)[2], "✓ 3 itens encontrados");
    let map = vec![
        AssetEntry { file: "a".to_string(), web_path: None },
        AssetEntry { file: "b".to_string(), web_path: Some("assets/images/b.png".to_string()) },
    ];
    app.on_message(Msg::Log(export_done_message(&map)));
    assert_eq!(log(&app)[3], "✓ Pronto! 1 asset(s) copiado(s), 1 não encontrado(s).");
    app.on_message(Msg::Done { output_dir: "/out/cenas/Second".to_string() });
    assert!(!app.exporting);
    assert_eq!(app.output_path, Some("/out/cenas/Second".to_string()));
    assert!(app.can_export());
}

#[test]
fn no_export_without_selection() {
    let mut app = App::default();
    assert!(app.begin_export("/out").is_none());
    assert!(!app.exporting);
    app.scenes = vec!["A".to_string()];
    assert_eq!(app.select_scene(0), None);
    assert_eq!(app.selected, Some(0));
    assert!(app.begin_export("/out").is_none());
}

#[test]
fn preview_log_of_a_scene() {
    let json = two_scenes();
    let scene = parse_scene(&json, "Main", false).unwrap();
    assert!(loggable(&scene.items));
    let mut app = App::default();
    app.log_scene(&scene);
    assert_eq!(
        log(&app),
        vec![
            "── Cena: Main ──────────────────────────".to_string(),
            "   Canvas: 1920×1080".to_string(),
            "".to_string(),
            "[HID] Logo  image   │ logo.png  pos(13,4) scale(1.00,1.00) align=5".to_string(),
        ]
    );
}

#[test]
fn preview_log_of_nested_items() {
    let items = vec![SceneItem::Group {
        base: zero_base("G"),
        items: vec![
            text_item("short"),
            SceneItem::Color {
                base: zero_base("C"),
                color: None,
                width: Real { bits: 100f64.to_bits() },
                height: Real { bits: 50f64.to_bits() },
            },
        ],
    }];
    assert!(loggable(&items));
    let mut app = App::default();
    app.log_items(&items, 0);
    assert_eq!(
        log(&app),
        vec![
            "[VIS] G  grupo (2 filhos)  pos(0,0) scale(0.00,0.00) align=5".to_string(),
            "[VIS]   T  text    │ font:Arial 30px  \"short\"  pos(0,0) scale(0.00,0.00) align=5".to_string(),
            "[VIS]   C  color   │ 100×50  pos(0,0) scale(0.00,0.00) align=5".to_string(),
        ]
    );
}

#[test]
fn preview_log_cuts_long_text() {
    let items = vec![text_item("abcdefghijklmnopqrstuvwxyz0123")];
    assert!(loggable(&items));
    let mut app = App::default();
    app.log_items(&items, 1);
    assert_eq!(
        log(&app),
        vec!["[VIS]   T  text    │ font:Arial 30px  \"abcdefghijklmnopqrstuvwxy\"  pos(0,0) scale(0.00,0.00) align=5".to_string()]
    );
    // Byte 25 falls inside a character: the text cannot be cut there.
    let bad = vec![text_item("aaaaaaaaaaaaaaaaaaaaaaaaé")];
    assert!(!loggable(&bad));
    let nested_bad = vec![SceneItem::Group { base: zero_base("G"), items: bad }];
    assert!(!loggable(&nested_bad));
}

#[test]
fn error_lines() {
    let mut app = App::default();
    app.log_invalid_json("eof");
    app.log_scene_error("Cena \"X\" não encontrada.");
    assert_eq!(log(&app), vec!["✗ JSON inválido: eof".to_string(), "✗ Cena \"X\" não encontrada.".to_string()]);
}
