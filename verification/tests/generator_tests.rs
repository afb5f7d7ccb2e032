use obs_overlay_exporter::assets::AssetEntry;
use obs_overlay_exporter::doc::{NumFmt, Token};
use obs_overlay_exporter::generator::{
    build_filter_suffix, build_transform_style, escape_html, font_family, generate_html,
    get_chroma_key, render_item, render_items, ChromaKey,
};
use obs_overlay_exporter::parser::{
    BaseItem, Bounds, Canvas, Filter, FilterSettings, Pos, Real, Scale, SceneData, SceneItem,
    REAL_ONE_BITS, REAL_ZERO_BITS,
};

/// Writes tokens as text; numbers in `{}` form, or as `#` for the CSS
/// helpers whose digits are not under test here.
fn render(doc: &[Token]) -> String {
    let mut out = String::new();
    for t in doc {
        match t {
            Token::Ch(c) => out.push(*c),
            Token::Num(NumFmt::Display(r)) => out.push_str(&format!("{}", f64::from_bits(r.bits))),
            Token::Num(NumFmt::Fixed { value, digits }) => {
                out.push_str(&format!("{:.*}", *digits as usize, f64::from_bits(value.bits)))
            }
            Token::Num(NumFmt::RotateCss(_)) => {}
            Token::Num(_) => out.push('#'),
        }
    }
    out
}

fn rl(x: f64) -> Real {
    Real { bits: x.to_bits() }
}

fn base(name: &str, id: &str) -> BaseItem {
    BaseItem {
        id: id.to_string(),
        name: name.to_string(),
        visible: true,
        pos: Pos { x: rl(10.0), y: rl(20.5) },
        scale: Scale { x: Real { bits: REAL_ONE_BITS }, y: Real { bits: REAL_ONE_BITS } },
        rot: Real { bits: REAL_ZERO_BITS },
        bounds_type: 0,
        bounds: Bounds { x: rl(0.0), y: rl(0.0) },
        filters: Vec::new(),
        item_align: 5,
    }
}

fn settings() -> FilterSettings {
    FilterSettings {
        similarity: None,
        key_color_type: None,
        custom_color: None,
        color: None,
        contrast: None,
        brightness: None,
        saturation: None,
        gamma: None,
    }
}

#[test]
fn escape_html_text() {
    assert_eq!(escape_html("a<b>&c\nd"), "a&lt;b&gt;&amp;c<br>d");
    assert_eq!(escape_html("plain"), "plain");
    assert_eq!(escape_html("\"q\""), "\"q\"");
    assert_eq!(escape_html(""), "");
}

#[test]
fn font_family_css() {
    assert_eq!(font_family("Impact"), "'Impact', 'Anton', monospace");
    assert_eq!(font_family("Arial"), "Arial, sans-serif");
    assert_eq!(font_family("Verdana"), "'Verdana', sans-serif");
}

#[test]
fn transform_style_top_left() {
    let b = base("x", "item-1");
    assert_eq!(render(&build_transform_style(&b)), "left: 10px; top: 20.5px; transform: #");
}

#[test]
fn transform_style_alignment() {
    let mut b = base("x", "item-1");
    b.item_align = 0;
    assert_eq!(
        render(&build_transform_style(&b)),
        "left: 10px; top: 20.5px; transform: translate(-50%, -50%) #"
    );
    b.item_align = 10; // right | bottom
    assert_eq!(
        render(&build_transform_style(&b)),
        "left: 10px; top: 20.5px; transform: translate(-100%, -100%) #"
    );
    b.item_align = 6; // right | top
    b.bounds_type = 2;
    assert_eq!(
        render(&build_transform_style(&b)),
        "left: 10px; top: 20.5px; transform: translate(-100%, 0%) ##"
    );
}

#[test]
fn filter_suffix_css() {
    assert_eq!(render(&build_filter_suffix(&Vec::new())), "");
    let mut cc = settings();
    cc.contrast = Some(rl(0.5));
    cc.gamma = Some(rl(0.2));
    let filters = vec![
        Filter { id: "color_filter_v2".to_string(), settings: cc },
        Filter { id: "obs_composite_blur".to_string(), settings: settings() },
        Filter { id: "sharpness_filter".to_string(), settings: settings() },
    ];
    assert_eq!(render(&build_filter_suffix(&filters)), "; filter: contrast(#) brightness(#) blur(4px)");
}

#[test]
fn chroma_key_choice() {
    assert_eq!(get_chroma_key(&Vec::new()), None);
    let mut blue = settings();
    blue.key_color_type = Some("blue".to_string());
    blue.similarity = Some(rl(300.0));
    let k = get_chroma_key(&vec![Filter { id: "chroma_key_filter_v2".to_string(), settings: blue }]);
    assert_eq!(k, Some(ChromaKey { r: 0, g: 0, b: 255, similarity: Some(rl(300.0)) }));
    let green = get_chroma_key(&vec![Filter { id: "chroma_key_filter".to_string(), settings: settings() }]);
    assert_eq!(green, Some(ChromaKey { r: 0, g: 255, b: 0, similarity: None }));
    let mut custom = settings();
    custom.key_color_type = Some("custom".to_string());
    custom.custom_color = Some(0xFF102030);
    let k = get_chroma_key(&vec![Filter { id: "chroma_key_filter".to_string(), settings: custom }]);
    assert_eq!(k, Some(ChromaKey { r: 0x30, g: 0x20, b: 0x10, similarity: None }));
    // A near-black colour key keys nothing.
    let mut black = settings();
    black.color = Some(0xFF000000);
    assert_eq!(get_chroma_key(&vec![Filter { id: "color_key_filter_v2".to_string(), settings: black }]), None);
    let mut red = settings();
    red.color = Some(0xFF0000FF);
    assert_eq!(
        get_chroma_key(&vec![Filter { id: "color_key_filter".to_string(), settings: red }]),
        Some(ChromaKey { r: 255, g: 0, b: 0, similarity: None })
    );
}

#[test]
fn render_image_uses_asset_map() {
    let item = SceneItem::Image { base: base("Logo", "item-1"), file: "C:\\img\\logo.png".to_string() };
    let copied = vec![AssetEntry {
        file: "C:\\img\\logo.png".to_string(),
        web_path: Some("assets/images/logo.png".to_string()),
    }];
    let html = render(&render_item(&item, &copied).unwrap());
    assert_eq!(
        html,
        "<!-- Logo (image) -->\n  <img id=\"item-1\" class=\"layer\" src=\"assets/images/logo.png\" alt=\"\" style=\"left: 10px; top: 20.5px; transform: #\">"
    );
    let html = render(&render_item(&item, &Vec::new()).unwrap());
    assert!(html.contains("src=\"C:/img/logo.png\""));
}

#[test]
fn render_skips_audio() {
    let item = SceneItem::Audio { base: base("Music", "item-2"), file: "/a.mp3".to_string() };
    assert!(render_item(&item, &Vec::new()).is_none());
    let items = vec![
        item,
        SceneItem::Gif { base: base("Anim", "item-3"), file: "/a.gif".to_string() },
    ];
    let out = render_items(&items, &Vec::new());
    assert_eq!(out.len(), 1);
    assert!(render(&out[0]).starts_with("<!-- Anim (gif) -->"));
}

#[test]
fn render_text_escapes_content() {
    let item = SceneItem::Text {
        base: base("Title", "item-4"),
        text: "a<b>\nc".to_string(),
        font_face: "Impact".to_string(),
        font_size: rl(48.0),
        font_bold: true,
        font_italic: false,
        color: None,
        opacity: rl(100.0),
        bk_color: None,
        bk_opacity: rl(0.0),
        outline: false,
        outline_size: 3,
        outline_color: None,
        text_align: "center".to_string(),
        drop_shadow: true,
        custom_width: 300,
        vertical: false,
    };
    let html = render(&render_item(&item, &Vec::new()).unwrap());
    assert!(html.starts_with("<!-- Title (text) -->\n  <div id=\"item-4\" class=\"layer\" style=\""));
    assert!(html.contains("; font-family: 'Impact', 'Anton', monospace; font-size: 48px; font-weight: bold; font-style: normal; color: #; background: #"));
    assert!(html.contains("; text-shadow: 3px 3px 6px rgba(0,0,0,0.85); text-align: center; line-height: 1; width: 300px; word-wrap: break-word#\">a&lt;b&gt;<br>c</div>"));
}

#[test]
fn render_video_plain_and_keyed() {
    let item = SceneItem::Video {
        base: base("Clip", "item-5"),
        file: "/v/clip.WEBM".to_string(),
        looping: false,
        speed_percent: rl(100.0),
    };
    let html = render(&render_item(&item, &Vec::new()).unwrap());
    assert!(html.contains("<video id=\"item-5\" class=\"layer\" autoplay muted playsinline style=\""));
    assert!(html.contains("<source src=\"/v/clip.WEBM\" type=\"video/webm\">"));
    let mut b = base("Keyed", "item-6");
    b.filters.push(Filter { id: "chroma_key_filter".to_string(), settings: settings() });
    let keyed = SceneItem::Video { base: b, file: "/v/k.mp4".to_string(), looping: true, speed_percent: rl(100.0) };
    let html = render(&render_item(&keyed, &Vec::new()).unwrap());
    assert!(html.starts_with("<!-- Keyed (video + chroma key) -->\n  <canvas id=\"item-6\""));
    assert!(html.contains("v.src='/v/k.mp4';v.loop=true;"));
    assert!(html.contains("var kr=0,kg=255,kb=0,tSq=#,started=false;"));
}

#[test]
fn render_group_nests_children() {
    let group = SceneItem::Group {
        base: base("G", "item-7"),
        items: vec![SceneItem::Browser {
            base: base("Chat", "item-8"),
            url: "https://chat.example/".to_string(),
            width: rl(400.0),
            height: rl(600.0),
        }],
    };
    let html = render(&render_item(&group, &Vec::new()).unwrap());
    assert!(html.starts_with("<!-- G (group) -->\n  <div id=\"item-7\" class=\"layer\" style=\""));
    assert!(html.contains("\">\n    <!-- Chat (browser source) -->\n      <iframe id=\"item-8\" class=\"layer\" src=\"https://chat.example/\" width=\"400\" height=\"600\""));
    assert!(html.ends_with("pointer-events: none;\"></iframe>\n  </div>"));
}

#[test]
fn generate_page() {
    let scene = SceneData {
        name: "Main".to_string(),
        canvas: Canvas { x: rl(1920.0), y: rl(1080.0) },
        items: vec![SceneItem::Color {
            base: base("Bg", "item-9"),
            color: Some(0xFF00FF00),
            width: rl(1920.0),
            height: rl(1080.0),
        }],
        fonts: Vec::new(),
    };
    let page = render(&generate_html(&scene, &Vec::new(), "@font-face {\n  x: y;\n}"));
    assert!(page.starts_with("<!DOCTYPE html>\n<html lang=\"pt-BR\">\n<head>\n  <meta charset=\"UTF-8\">\n  <title>Main</title>\n  <style>\n    @font-face {\n      x: y;\n    }\n  </style>\n"));
    assert!(page.contains("html, body {\n      width: 1920px;\n      height: 1080px;"));
    assert!(page.contains("<div class=\"canvas\">\n  <!-- Bg (color) -->\n  <div id=\"item-9\""));
    assert!(page.contains("var CW=1920, CH=1080;"));
    assert!(page.ends_with("</script>\n</body>\n</html>"));
    let bare = render(&generate_html(&scene, &Vec::new(), ""));
    assert!(bare.contains("<title>Main</title>\n  <style>\n    *, *::before"));
}
