use obs_overlay_exporter::assets::{
    asset_destination, collect_google_fonts, collect_local_files, count_assets, export_result,
    export_summary, extract_woff2_urls, finish_font_css, font_fallback_import, font_file_name,
    get_sub_dir, google_fonts_css_url, join_font_css, localize_font_url, plan_asset, resolve_asset,
    short_path, AssetEntry, localize_font_css, record_copy, record_font, CopyOutcome, FontOutcome,
};
use obs_overlay_exporter::parser::{BaseItem, Bounds, Pos, Real, Scale, SceneItem};

fn base(name: &str) -> BaseItem {
    let zero = Real { bits: 0 };
    BaseItem {
        id: "item-0".to_string(),
        name: name.to_string(),
        visible: true,
        pos: Pos { x: zero, y: zero },
        scale: Scale { x: zero, y: zero },
        rot: zero,
        bounds_type: 0,
        bounds: Bounds { x: zero, y: zero },
        filters: Vec::new(),
        item_align: 5,
    }
}

fn entry(file: &str, web: Option<&str>) -> AssetEntry {
    AssetEntry { file: file.to_string(), web_path: web.map(|w| w.to_string()) }
}

#[test]
fn sub_dirs_by_extension() {
    assert_eq!(get_sub_dir("mp4"), "videos");
    assert_eq!(get_sub_dir("mkv"), "videos");
    assert_eq!(get_sub_dir("png"), "images");
    assert_eq!(get_sub_dir("gif"), "images");
    assert_eq!(get_sub_dir("svg"), "images");
    assert_eq!(get_sub_dir("mp3"), "audio");
    assert_eq!(get_sub_dir("aac"), "audio");
    assert_eq!(get_sub_dir("txt"), "misc");
    assert_eq!(get_sub_dir(""), "misc");
    assert_eq!(get_sub_dir("PNG"), "misc");
}

#[test]
fn destination_of_a_copy() {
    let p = asset_destination(Some("PNG"), Some("logo.PNG"));
    assert_eq!(p.sub_dir, "images");
    assert_eq!(p.file_name, "logo.PNG");
    assert_eq!(p.web_path, "assets/images/logo.PNG");
    let p = asset_destination(None, None);
    assert_eq!(p.sub_dir, "misc");
    assert_eq!(p.web_path, "assets/misc/unknown");
    let p = plan_asset("/home/me/clips/intro.Mp4");
    assert_eq!(p.sub_dir, "videos");
    assert_eq!(p.file_name, "intro.Mp4");
    assert_eq!(p.web_path, "assets/videos/intro.Mp4");
}

#[test]
fn short_names() {
    assert_eq!(short_path("/home/me/logo.png"), "logo.png");
    assert_eq!(short_path("logo.png"), "logo.png");
    assert_eq!(short_path("/"), "/");
}

#[test]
fn resolve_paths() {
    let map = vec![entry("/a/x.png", Some("assets/images/x.png")), entry("C:\\b\\y.mp4", None)];
    assert_eq!(resolve_asset("/a/x.png", &map), "assets/images/x.png");
    assert_eq!(resolve_asset("C:\\b\\y.mp4", &map), "C:/b/y.mp4");
    assert_eq!(resolve_asset("D:\\z.gif", &map), "D:/z.gif");
}

#[test]
fn local_files_each_once() {
    let items = vec![
        SceneItem::Image { base: base("a"), file: "/img/a.png".to_string() },
        SceneItem::Gif { base: base("b"), file: "https://cdn/b.gif".to_string() },
        SceneItem::Audio { base: base("c"), file: "".to_string() },
        SceneItem::Group {
            base: base("g"),
            items: vec![
                SceneItem::Image { base: base("d"), file: "/img/a.png".to_string() },
                SceneItem::Audio { base: base("e"), file: "/snd/e.mp3".to_string() },
            ],
        },
    ];
    let files = collect_local_files(&items);
    assert_eq!(files, vec!["/img/a.png".to_string(), "/snd/e.mp3".to_string()]);
}

#[test]
fn counts_and_summary() {
    let map = vec![entry("a", Some("x")), entry("b", None), entry("c", Some("y"))];
    assert_eq!(count_assets(&map), (2, 1));
    assert_eq!(export_summary(2, 1), "Pronto! 2 asset(s) copiado(s), 1 não encontrado(s).");
    assert_eq!(export_summary(3, 0), "Pronto! 3 asset(s) copiado(s).");
    let r = export_result(&map);
    assert!(r.success);
    assert_eq!(r.copied, 2);
    assert_eq!(r.missing, 1);
    assert_eq!(r.message, "Pronto! 2 asset(s) copiado(s), 1 não encontrado(s).");
    let empty = export_result(&Vec::new());
    assert_eq!((empty.copied, empty.missing), (0, 0));
    assert_eq!(empty.message, "Pronto! 0 asset(s) copiado(s).");
}

#[test]
fn google_fonts_of_faces() {
    let faces = vec!["Impact".to_string(), "Arial".to_string(), "Comic Sans MS".to_string(), "X".to_string()];
    let fonts = collect_google_fonts(&faces);
    assert_eq!(
        fonts,
        vec![
            ("Impact".to_string(), "Anton".to_string()),
            ("Comic Sans MS".to_string(), "Indie+Flower".to_string()),
        ]
    );
    assert_eq!(
        google_fonts_css_url("Share+Tech+Mono"),
        "https://fonts.googleapis.com/css2?family=Share+Tech+Mono&display=swap"
    );
    assert_eq!(
        font_fallback_import("Anton"),
        "@import url('https://fonts.googleapis.com/css2?family=Anton&display=swap');"
    );
}

#[test]
fn woff2_urls_in_order_each_once() {
    let css = "@font-face { src: url(https://fonts.gstatic.com/s/anton/v1/a.woff2) format('woff2'); }\n\
               @font-face { src: url(https://fonts.gstatic.com/s/anton/v1/b.woff2); }\n\
               @font-face { src: url(https://fonts.gstatic.com/s/anton/v1/a.woff2); }\n\
               @font-face { src: url(https://fonts.gstatic.com/s/anton/v1/c.ttf); }";
    let urls = extract_woff2_urls(css);
    assert_eq!(
        urls,
        vec![
            "https://fonts.gstatic.com/s/anton/v1/a.woff2".to_string(),
            "https://fonts.gstatic.com/s/anton/v1/b.woff2".to_string(),
        ]
    );
    assert!(extract_woff2_urls("no fonts here").is_empty());
    assert!(extract_woff2_urls("https://fonts.gstatic.com/x.ttf").is_empty());
}

#[test]
fn font_files_and_local_css() {
    let url = "https://fonts.gstatic.com/s/sharetechmono/v15/abc.woff2";
    let name = font_file_name("Share+Tech+Mono", url);
    assert_eq!(name, "Share_Tech_Mono_abc.woff2");
    let css = format!("a {{ src: url({}) }} b {{ src: url({}) }}", url, url);
    assert_eq!(
        localize_font_url(&css, url, &name),
        "a { src: url(assets/fonts/Share_Tech_Mono_abc.woff2) } b { src: url(assets/fonts/Share_Tech_Mono_abc.woff2) }"
    );
    assert_eq!(finish_font_css("\n  @font-face {}\n\n"), "@font-face {}");
    assert_eq!(finish_font_css("\u{3000}\t@x\u{a0}\u{2028}"), "@x");
    assert_eq!(join_font_css(&vec!["a".to_string(), "b".to_string()]), "a\n\nb");
    assert_eq!(join_font_css(&Vec::new()), "");
}

#[test]
fn plans_of_plain_paths() {
    let p = plan_asset("C:/Users/me/Videos/clip.MP4");
    assert_eq!(p.file_name, "clip.MP4");
    assert_eq!(p.web_path, "assets/videos/clip.MP4");
    let p = plan_asset("/home/me/.hidden");
    assert_eq!(p.file_name, ".hidden");
    assert_eq!(p.sub_dir, "misc");
    let p = plan_asset("/home/me/archive.tar.gz");
    assert_eq!(p.web_path, "assets/misc/archive.tar.gz");
    let p = plan_asset("photo.");
    assert_eq!(p.web_path, "assets/misc/photo.");
    assert_eq!(short_path("C:/Users/me/Videos/clip.MP4"), "clip.MP4");
    assert_eq!(short_path("a/b/c"), "c");
}

#[test]
fn copy_outcomes_fill_the_map() {
    let mut map: Vec<AssetEntry> = Vec::new();
    let plan = plan_asset("/img/a.png");
    assert_eq!(record_copy(&mut map, "/img/a.png".to_string(), &plan, CopyOutcome::Copied), "✓ Copiado: a.png");
    let plan = plan_asset("/img/b.png");
    assert_eq!(record_copy(&mut map, "/img/b.png".to_string(), &plan, CopyOutcome::Missing), "✗ Não encontrado: /img/b.png");
    let plan = plan_asset("/v/c.mp4");
    assert_eq!(
        record_copy(&mut map, "/v/c.mp4".to_string(), &plan, CopyOutcome::CopyFailed("denied".to_string())),
        "✗ Erro ao copiar c.mp4: denied"
    );
    assert_eq!(
        record_copy(&mut map, "/v/d.mp4".to_string(), &plan, CopyOutcome::FolderFailed("full".to_string())),
        "✗ Erro ao criar pasta: full"
    );
    assert_eq!(map.len(), 4);
    assert_eq!(map[0].file, "/img/a.png");
    assert_eq!(map[0].web_path, Some("assets/images/a.png".to_string()));
    assert_eq!(map[1].web_path, None);
    assert_eq!(map[2].web_path, None);
    assert_eq!(map[3].file, "/v/d.mp4");
    assert_eq!(map[3].web_path, None);
}

#[test]
fn font_outcomes_fill_the_css() {
    let mut blocks: Vec<String> = Vec::new();
    assert_eq!(
        record_font(&mut blocks, "Impact", "Anton", FontOutcome::Downloaded("@font-face {}".to_string())),
        "✓ Fonte baixada: Impact"
    );
    assert_eq!(
        record_font(&mut blocks, "Comic Sans MS", "Indie+Flower", FontOutcome::Failed("timeout".to_string())),
        "⚠ Falha ao baixar fonte (timeout) — usando CDN fallback"
    );
    assert_eq!(
        blocks,
        vec![
            "@font-face {}".to_string(),
            "@import url('https://fonts.googleapis.com/css2?family=Indie+Flower&display=swap');".to_string(),
        ]
    );
}

#[test]
fn stylesheet_points_at_local_files() {
    let a = "https://fonts.gstatic.com/s/x/a.woff2";
    let b = "https://fonts.gstatic.com/s/x/b.woff2";
    let css = format!("\n  src: url({}); src: url({}); src: url({});\n", a, b, a);
    let urls = vec![a.to_string(), b.to_string(), String::new()];
    assert_eq!(
        localize_font_css(&css, "Alfa+Slab+One", &urls),
        "src: url(assets/fonts/Alfa_Slab_One_a.woff2); src: url(assets/fonts/Alfa_Slab_One_b.woff2); src: url(assets/fonts/Alfa_Slab_One_a.woff2);"
    );
}
