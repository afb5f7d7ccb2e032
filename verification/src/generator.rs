//! The HTML overlay of a scene.

use vstd::prelude::*;
use vstd::string::StringExecFns;
use crate::assets::{AssetEntry, assets_view, resolve_asset, spec_resolve_asset};
use crate::doc::{
    NumFmt, Token, char_token, docs_view, indent, indent_lines, join_docs, lemma_lit_concat, lit,
    new_doc, push_doc, push_num, push_str, push_str_if,
};
use crate::parser::{
    BaseItem, BaseItemView, Canvas, Filter, FilterView, SceneData, SceneItem, SceneItemView,
    filter_views, item_view, items_view, opt_or,
};
use crate::text::{
    after_last, has_prefix, i64_to_decimal, int_decimal, joined, nat_decimal, push_char, spec_lowercase, str_eq,
    text_after_last, to_lowercase, usize_to_decimal,
};
use crate::utils::{get_web_font, spec_web_font};

verus! {

// ─── Placement ───────────────────────────────────────────────────────────────

/// The CSS translation that moves an item's anchor, given by OBS alignment
/// bits (left=1, right=2, top=4, bottom=8), onto its position; nothing for
/// top-left.
pub open spec fn translate_css(align: i64) -> Seq<char> {
    let h = align & 3;
    let v = align & 12;
    let tx = if h == 1 {
        "0%"@
    } else if h == 2 {
        "-100%"@
    } else {
        "-50%"@
    };
    let ty = if v == 4 {
        "0%"@
    } else if v == 8 {
        "-100%"@
    } else {
        "-50%"@
    };
    if h == 1 && v == 4 {
        seq![]
    } else {
        "translate("@ + tx + ", "@ + ty + ") "@
    }
}

/// The CSS that places an item: position, anchor translation, scale and
/// rotation, and for a stretch-to-bounds item (`bounds_type` 2) its size.
pub open spec fn spec_transform_style(b: BaseItemView) -> Seq<Token> {
    lit("left: "@) + seq![Token::Num(NumFmt::Display(b.pos.x))] + lit("px; top: "@) + seq![
        Token::Num(NumFmt::Display(b.pos.y)),
    ] + lit("px; transform: "@) + lit(translate_css(b.item_align)) + seq![
        Token::Num(NumFmt::ScaleCss { x: b.scale.x, y: b.scale.y }),
    ] + seq![Token::Num(NumFmt::RotateCss(b.rot))] + if b.bounds_type == 2 {
        seq![Token::Num(NumFmt::StretchSize { x: b.bounds.x, y: b.bounds.y })]
    } else {
        seq![]
    }
}

fn push_translate(doc: &mut Vec<Token>, align: i64)
    ensures
        final(doc)@ == old(doc)@ + lit(translate_css(align)),
{
    let h = align & 3;
    let v = align & 12;
    if h == 1 && v == 4 {
        assert(lit(translate_css(align)) =~= Seq::<Token>::empty());
        assert(doc@ =~= doc@ + lit(translate_css(align)));
        return ;
    }
    let tx = if h == 1 {
        "0%"
    } else if h == 2 {
        "-100%"
    } else {
        "-50%"
    };
    let ty = if v == 4 {
        "0%"
    } else if v == 8 {
        "-100%"
    } else {
        "-50%"
    };
    let ghost start = doc@;
    push_str(doc, "translate(");
    push_str(doc, tx);
    push_str(doc, ", ");
    push_str(doc, ty);
    push_str(doc, ") ");
    proof {
        lemma_lit_concat("translate("@, tx@);
        lemma_lit_concat("translate("@ + tx@, ", "@);
        lemma_lit_concat("translate("@ + tx@ + ", "@, ty@);
        lemma_lit_concat("translate("@ + tx@ + ", "@ + ty@, ") "@);
    }
    assert(doc@ =~= start + lit(translate_css(align)));
}

/// The CSS that places an item.
pub fn build_transform_style(base: &BaseItem) -> (r: Vec<Token>)
    ensures
        r@ == spec_transform_style(base@),
{
    let mut doc: Vec<Token> = Vec::new();
    push_str(&mut doc, "left: ");
    push_num(&mut doc, NumFmt::Display(base.pos.x));
    push_str(&mut doc, "px; top: ");
    push_num(&mut doc, NumFmt::Display(base.pos.y));
    push_str(&mut doc, "px; transform: ");
    push_translate(&mut doc, base.item_align);
    push_num(&mut doc, NumFmt::ScaleCss { x: base.scale.x, y: base.scale.y });
    push_num(&mut doc, NumFmt::RotateCss(base.rot));
    if base.bounds_type == 2 {
        push_num(&mut doc, NumFmt::StretchSize { x: base.bounds.x, y: base.bounds.y });
    } else {
        assert(doc@ =~= doc@ + Seq::<Token>::empty());
    }
    assert(doc@ =~= spec_transform_style(base@));
    doc
}

// ─── Filters ─────────────────────────────────────────────────────────────────

/// The filter ids of colour and chroma key filters.
pub open spec fn is_key_filter_id(id: Seq<char>) -> bool {
    id == "color_key_filter"@ || id == "color_key_filter_v2"@ || id == "chroma_key_filter"@ || id
        == "chroma_key_filter_v2"@
}

/// Some filter is a colour or chroma key filter.
pub open spec fn has_key_filter(filters: Seq<FilterView>) -> bool {
    exists|i: int| 0 <= i < filters.len() && is_key_filter_id(#[trigger] filters[i].id)
}

fn is_key_filter(id: &str) -> (r: bool)
    ensures
        r == is_key_filter_id(id@),
{
    str_eq(id, "color_key_filter") || str_eq(id, "color_key_filter_v2") || str_eq(
        id,
        "chroma_key_filter",
    ) || str_eq(id, "chroma_key_filter_v2")
}

fn any_key_filter(filters: &Vec<Filter>) -> (r: bool)
    ensures
        r == has_key_filter(filter_views(filters@)),
{
    let mut i: usize = 0;
    while i < filters.len()
        invariant
            i <= filters.len(),
            forall|j: int| 0 <= j < i ==> !is_key_filter_id(#[trigger] filter_views(filters@)[j].id),
        decreases filters.len() - i,
    {
        if is_key_filter(filters[i].id.as_str()) {
            assert(is_key_filter_id(filter_views(filters@)[i as int].id));
            return true;
        }
        i = i + 1;
    }
    false
}

/// The CSS filter functions that one OBS filter contributes: colour
/// correction gives contrast, brightness, saturation and gamma (each only
/// when set); a composite blur gives a 4px blur.
pub open spec fn filter_functions(f: FilterView) -> Seq<Seq<Token>> {
    let s = f.settings;
    let color = f.id == "color_filter"@ || f.id == "color_filter_v2"@;
    let c: Seq<Seq<Token>> = if color && s.contrast is Some {
        seq![lit("contrast("@) + seq![Token::Num(NumFmt::OnePlus(s.contrast->0))] + lit(")"@)]
    } else {
        seq![]
    };
    let b: Seq<Seq<Token>> = if color && s.brightness is Some {
        seq![lit("brightness("@) + seq![Token::Num(NumFmt::OnePlus(s.brightness->0))] + lit(")"@)]
    } else {
        seq![]
    };
    let sa: Seq<Seq<Token>> = if color && s.saturation is Some {
        seq![lit("saturate("@) + seq![Token::Num(NumFmt::OnePlus(s.saturation->0))] + lit(")"@)]
    } else {
        seq![]
    };
    let g: Seq<Seq<Token>> = if color && s.gamma is Some {
        seq![lit("brightness("@) + seq![Token::Num(NumFmt::OnePlusHalf(s.gamma->0))] + lit(")"@)]
    } else {
        seq![]
    };
    let blur: Seq<Seq<Token>> = if f.id == "obs_composite_blur"@ {
        seq![lit("blur(4px)"@)]
    } else {
        seq![]
    };
    c + b + sa + g + blur
}

/// The CSS filter functions of the first `n` filters, in order.
pub open spec fn filter_functions_upto(filters: Seq<FilterView>, n: nat) -> Seq<Seq<Token>>
    decreases n,
{
    if n == 0 || n > filters.len() {
        seq![]
    } else {
        filter_functions_upto(filters, (n - 1) as nat) + filter_functions(filters[n - 1])
    }
}

/// The CSS `filter` value of an item's filters: their functions joined by spaces.
pub open spec fn spec_css_filters(filters: Seq<FilterView>) -> Seq<Token> {
    joined(filter_functions_upto(filters, filters.len()), lit(" "@))
}

/// `; filter: ..` when the filters give any CSS filter function, nothing otherwise.
pub open spec fn spec_filter_suffix(filters: Seq<FilterView>) -> Seq<Token> {
    if filter_functions_upto(filters, filters.len()).len() == 0 {
        seq![]
    } else {
        lit("; filter: "@) + spec_css_filters(filters)
    }
}

fn push_function(out: &mut Vec<Vec<Token>>, name: &str, f: NumFmt)
    ensures
        docs_view(final(out)@) == docs_view(old(out)@).push(
            lit(name@) + seq![Token::Num(f)] + lit(")"@),
        ),
{
    let mut d: Vec<Token> = Vec::new();
    push_str(&mut d, name);
    push_num(&mut d, f);
    push_str(&mut d, ")");
    assert(d@ =~= lit(name@) + seq![Token::Num(f)] + lit(")"@));
    let ghost before = out@;
    out.push(d);
    assert(docs_view(out@) =~= docs_view(before).push(d@));
}

fn filter_functions_exec(f: &Filter, out: &mut Vec<Vec<Token>>)
    ensures
        docs_view(final(out)@) == docs_view(old(out)@) + filter_functions(f@),
{
    let ghost start = docs_view(out@);
    let id = f.id.as_str();
    let color = str_eq(id, "color_filter") || str_eq(id, "color_filter_v2");
    let s = &f.settings;
    if color {
        if let Some(v) = s.contrast {
            push_function(out, "contrast(", NumFmt::OnePlus(v));
        }
        if let Some(v) = s.brightness {
            push_function(out, "brightness(", NumFmt::OnePlus(v));
        }
        if let Some(v) = s.saturation {
            push_function(out, "saturate(", NumFmt::OnePlus(v));
        }
        if let Some(v) = s.gamma {
            push_function(out, "brightness(", NumFmt::OnePlusHalf(v));
        }
    }
    if str_eq(id, "obs_composite_blur") {
        let mut d: Vec<Token> = Vec::new();
        push_str(&mut d, "blur(4px)");
        assert(d@ =~= lit("blur(4px)"@));
        let ghost before = out@;
        out.push(d);
        assert(docs_view(out@) =~= docs_view(before).push(d@));
    }
    assert(docs_view(out@) =~= start + filter_functions(f@));
}

fn css_filter_functions(filters: &Vec<Filter>) -> (r: Vec<Vec<Token>>)
    ensures
        docs_view(r@) == filter_functions_upto(filter_views(filters@), filters@.len()),
{
    let ghost fv = filter_views(filters@);
    let mut out: Vec<Vec<Token>> = Vec::new();
    let mut i: usize = 0;
    while i < filters.len()
        invariant
            i <= filters.len(),
            fv == filter_views(filters@),
            docs_view(out@) == filter_functions_upto(fv, i as nat),
        decreases filters.len() - i,
    {
        filter_functions_exec(&filters[i], &mut out);
        assert(fv[i as int] == filters@[i as int]@);
        i = i + 1;
    }
    out
}

/// `; filter: ..` when the filters give any CSS filter function.
pub fn build_filter_suffix(filters: &Vec<Filter>) -> (r: Vec<Token>)
    ensures
        r@ == spec_filter_suffix(filter_views(filters@)),
{
    let parts = css_filter_functions(filters);
    let mut doc: Vec<Token> = Vec::new();
    if parts.len() == 0 {
        assert(doc@ =~= spec_filter_suffix(filter_views(filters@)));
        return doc;
    }
    push_str(&mut doc, "; filter: ");
    let joined_parts = join_docs(&parts, " ");
    push_doc(&mut doc, &joined_parts);
    doc
}

// ─── Key colours ─────────────────────────────────────────────────────────────

/// The key colour of a colour or chroma key filter and its OBS similarity.
#[derive(Clone, Copy, Debug, PartialEq, Eq, Structural)]
pub struct ChromaKey {
    pub r: u32,
    pub g: u32,
    pub b: u32,
    pub similarity: Option<crate::parser::Real>,
}

/// The red, green and blue bytes of an OBS colour (stored as ABGR).
pub open spec fn key_rgb(c: i64) -> (u32, u32, u32) {
    ((c as u32) & 0xFF, ((c as u32) >> 8) & 0xFF, ((c as u32) >> 16) & 0xFF)
}

/// The key of the first colour or chroma key filter from the `i`-th on: a
/// chroma key's colour by its type (green unless blue, magenta or custom); a
/// colour key's colour, except that a near-black colour key gives no key.
pub open spec fn chroma_key_from(filters: Seq<FilterView>, i: int) -> Option<ChromaKey>
    decreases filters.len() - i,
{
    if i < 0 || i >= filters.len() {
        None
    } else {
        let f = filters[i];
        let sim = f.settings.similarity;
        if f.id == "chroma_key_filter"@ || f.id == "chroma_key_filter_v2"@ {
            let t = opt_or(f.settings.key_color_type, "green"@);
            let rgb = if t == "blue"@ {
                (0u32, 0u32, 255u32)
            } else if t == "magenta"@ {
                (255u32, 0u32, 255u32)
            } else if t == "custom"@ {
                key_rgb(opt_or(f.settings.custom_color, 0i64))
            } else {
                (0u32, 255u32, 0u32)
            };
            Some(ChromaKey { r: rgb.0, g: rgb.1, b: rgb.2, similarity: sim })
        } else if f.id == "color_key_filter"@ || f.id == "color_key_filter_v2"@ {
            let rgb = key_rgb(opt_or(f.settings.color, 0i64));
            if rgb.0 < 10 && rgb.1 < 10 && rgb.2 < 10 {
                None
            } else {
                Some(ChromaKey { r: rgb.0, g: rgb.1, b: rgb.2, similarity: sim })
            }
        } else {
            chroma_key_from(filters, i + 1)
        }
    }
}

fn rgb_of(c: i64) -> (r: (u32, u32, u32))
    ensures
        r == key_rgb(c),
{
    let u = c as u32;
    (u & 0xFF, (u >> 8) & 0xFF, (u >> 16) & 0xFF)
}

/// The key colour and similarity of the first colour or chroma key filter,
/// `None` when there is none or it keys out black.
pub fn get_chroma_key(filters: &Vec<Filter>) -> (r: Option<ChromaKey>)
    ensures
        r == chroma_key_from(filter_views(filters@), 0),
{
    let ghost fv = filter_views(filters@);
    let mut i: usize = 0;
    while i < filters.len()
        invariant
            i <= filters.len(),
            fv == filter_views(filters@),
            chroma_key_from(fv, 0) == chroma_key_from(fv, i as int),
        decreases filters.len() - i,
    {
        let f = &filters[i];
        assert(fv[i as int] == f@);
        let id = f.id.as_str();
        let sim = f.settings.similarity;
        if str_eq(id, "chroma_key_filter") || str_eq(id, "chroma_key_filter_v2") {
            let rgb = match &f.settings.key_color_type {
                Some(t) => {
                    if str_eq(t.as_str(), "blue") {
                        (0u32, 0u32, 255u32)
                    } else if str_eq(t.as_str(), "magenta") {
                        (255u32, 0u32, 255u32)
                    } else if str_eq(t.as_str(), "custom") {
                        rgb_of(
                            match f.settings.custom_color {
                                Some(c) => c,
                                None => 0,
                            },
                        )
                    } else {
                        (0u32, 255u32, 0u32)
                    }
                },
                None => {
                    proof {
                        reveal_strlit("green");
                        reveal_strlit("blue");
                        reveal_strlit("magenta");
                        reveal_strlit("custom");
                        assert("green"@[0] != "blue"@[0]);
                        assert("green"@[0] != "magenta"@[0]);
                        assert("green"@[0] != "custom"@[0]);
                    }
                    (0u32, 255u32, 0u32)
                },
            };
            assert(chroma_key_from(fv, i as int) == Some(ChromaKey { r: rgb.0, g: rgb.1, b: rgb.2, similarity: sim }));
            return Some(ChromaKey { r: rgb.0, g: rgb.1, b: rgb.2, similarity: sim });
        } else if str_eq(id, "color_key_filter") || str_eq(id, "color_key_filter_v2") {
            let rgb = rgb_of(
                match f.settings.color {
                    Some(c) => c,
                    None => 0,
                },
            );
            if rgb.0 < 10 && rgb.1 < 10 && rgb.2 < 10 {
                return None;
            }
            return Some(ChromaKey { r: rgb.0, g: rgb.1, b: rgb.2, similarity: sim });
        }
        i = i + 1;
    }
    None
}

// ─── Text ────────────────────────────────────────────────────────────────────

/// How one character of text is written in HTML: `&`, `<` and `>` escaped,
/// a line break as `<br>`.
pub open spec fn escape_char(c: char) -> Seq<char> {
    if c == '&' {
        "&amp;"@
    } else if c == '<' {
        "&lt;"@
    } else if c == '>' {
        "&gt;"@
    } else if c == '\n' {
        "<br>"@
    } else {
        seq![c]
    }
}

/// Text escaped for HTML.
pub open spec fn html_escape(s: Seq<char>) -> Seq<char>
    decreases s.len(),
{
    if s.len() == 0 {
        seq![]
    } else {
        html_escape(s.drop_last()) + escape_char(s.last())
    }
}

/// Text escaped for HTML.
pub fn escape_html(s: &str) -> (r: String)
    ensures
        r@ == html_escape(s@),
{
    let chars = crate::text::chars_of(s);
    let mut out = String::new();
    let mut i: usize = 0;
    while i < chars.len()
        invariant
            i <= chars.len(),
            chars@ == s@,
            out@ == html_escape(chars@.take(i as int)),
        decreases chars.len() - i,
    {
        let c = chars[i];
        assert(chars@.take(i + 1).drop_last() =~= chars@.take(i as int));
        if c == '&' {
            out.append("&amp;");
        } else if c == '<' {
            out.append("&lt;");
        } else if c == '>' {
            out.append("&gt;");
        } else if c == '\n' {
            out.append("<br>");
        } else {
            let ghost before = out@;
            push_char(&mut out, c);
            assert(out@ =~= before + seq![c]);
        }
        i = i + 1;
    }
    assert(chars@.take(chars.len() as int) =~= chars@);
    out
}

/// The CSS font family of a text item: the Windows face first with its web
/// substitute after it when that has a Google font, the substitute alone when
/// it has none, or the face with a sans-serif fallback when it has no mapping.
pub open spec fn spec_font_family(face: Seq<char>) -> Seq<char> {
    match spec_web_font(face) {
        Some((web, Some(_))) => "'"@ + face + "', '"@ + web + "', monospace"@,
        Some((web, None)) => web,
        None => "'"@ + face + "', sans-serif"@,
    }
}

/// The CSS font family of a text item.
pub fn font_family(face: &str) -> (r: String)
    ensures
        r@ == spec_font_family(face@),
{
    match get_web_font(face) {
        Some(m) => {
            if m.google_font.is_some() {
                let mut s = String::from_str("'");
                s.append(face);
                s.append("', '");
                s.append(m.web);
                s.append("', monospace");
                s
            } else {
                m.web.to_owned()
            }
        },
        None => {
            let mut s = String::from_str("'");
            s.append(face);
            s.append("', sans-serif");
            s
        },
    }
}


// ─── Items ───────────────────────────────────────────────────────────────────

/// `; mix-blend-mode: screen` for an item with a colour or chroma key filter.
pub open spec fn blend_suffix(filters: Seq<FilterView>) -> Seq<Token> {
    if has_key_filter(filters) {
        lit("; mix-blend-mode: screen"@)
    } else {
        seq![]
    }
}

/// An image: an `<img>` layer; a key filter makes it blend with `screen`.
pub open spec fn image_html(b: BaseItemView, src: Seq<char>) -> Seq<Token> {
    lit("<!-- "@) + lit(b.name) + lit(" (image) -->\n  <img id=\""@) + lit(b.id) + lit(
        "\" class=\"layer\" src=\""@,
    ) + lit(src) + lit("\" alt=\"\" style=\""@) + spec_transform_style(b) + spec_filter_suffix(
        b.filters,
    ) + blend_suffix(b.filters) + lit("\">"@)
}

/// A GIF: an `<img>` layer.
pub open spec fn gif_html(b: BaseItemView, src: Seq<char>) -> Seq<Token> {
    lit("<!-- "@) + lit(b.name) + lit(" (gif) -->\n  <img id=\""@) + lit(b.id) + lit(
        "\" class=\"layer\" src=\""@,
    ) + lit(src) + lit("\" alt=\"\" style=\""@) + spec_transform_style(b) + lit("\">"@)
}

/// The MIME type of a video file: WebM by a `webm` extension, MP4 otherwise.
pub open spec fn video_mime(file: Seq<char>) -> Seq<char> {
    if spec_lowercase(after_last(file, '.')) == "webm"@ {
        "video/webm"@
    } else {
        "video/mp4"@
    }
}

/// A keyed video: a canvas that a script fills with the video's frames,
/// clearing the pixels near the key colour.
pub open spec fn chroma_video_html(b: BaseItemView, src: Seq<char>, looping: bool, k: ChromaKey) -> Seq<Token> {
    lit("<!-- "@) + lit(b.name) + lit(" (video + chroma key) -->\n  <canvas id=\""@) + lit(b.id) + lit("\" class=\"layer\" style=\""@) + spec_transform_style(b) + lit(";display:none\"></canvas>\n  <script>(function(){\n    var c=document.getElementById('"@) + lit(b.id) + lit("'),ctx=c.getContext('2d');\n    var v=document.createElement('video');\n    v.src='"@) + lit(src) + lit("';v.loop="@) + lit(if looping { "true"@ } else { "false"@ }) + lit(";v.muted=true;v.playsInline=true;\n    var kr="@) + lit(nat_decimal(k.r as nat)) + lit(",kg="@) + lit(nat_decimal(k.g as nat)) + lit(",kb="@) + lit(nat_decimal(k.b as nat)) + lit(",tSq="@) + seq![Token::Num(NumFmt::ToleranceSquared(k.similarity))] + lit(",started=false;\n    function draw(){\n      if(c.width>0&&c.height>0){\n        ctx.drawImage(v,0,0);\n        try{\n          var d=ctx.getImageData(0,0,c.width,c.height),p=d.data;\n          for(var i=0;i<p.length;i+=4){var dr=p[i]-kr,dg=p[i+1]-kg,db=p[i+2]-kb;if(dr*dr+dg*dg+db*db<tSq)p[i+3]=0;}\n          ctx.putImageData(d,0,0);\n        }catch(e){}\n      }\n      requestAnimationFrame(draw);\n    }\n    v.addEventListener('loadedmetadata',function(){\n      c.width=v.videoWidth;c.height=v.videoHeight;c.style.display='';\n      if(!started){started=true;requestAnimationFrame(draw);}\n    });\n    v.play().catch(function(){});\n  })();</script>"@)
}

/// A video without a (non-black) key: a `<video>` layer that plays muted.
pub open spec fn plain_video_html(b: BaseItemView, file: Seq<char>, src: Seq<char>, looping: bool) -> Seq<Token> {
    lit("<!-- "@) + lit(b.name) + lit(" (video) -->\n  <video id=\""@) + lit(b.id) + lit(
        "\" class=\"layer\" autoplay"@,
    ) + (if looping {
        lit(" loop"@)
    } else {
        seq![]
    }) + lit(" muted playsinline style=\""@) + spec_transform_style(b) + spec_filter_suffix(b.filters)
        + blend_suffix(b.filters) + lit("\">\n    <source src=\""@) + lit(src) + lit("\" type=\""@)
        + lit(video_mime(file)) + lit("\">\n  </video>"@)
}

/// A video: keyed by its first key filter when that has a key colour.
pub open spec fn video_html(b: BaseItemView, file: Seq<char>, src: Seq<char>, looping: bool) -> Seq<Token> {
    match chroma_key_from(b.filters, 0) {
        Some(k) => chroma_video_html(b, src, looping, k),
        None => plain_video_html(b, file, src, looping),
    }
}

/// The text-shadow of a text item: the outline halo (when outlined with a
/// positive size), then the drop shadow (when on); `none` when neither.
pub open spec fn text_shadow(
    outline: bool,
    outline_size: i64,
    scale_x: crate::parser::Real,
    outline_color: Option<i64>,
    drop_shadow: bool,
) -> Seq<Token> {
    let halo = seq![Token::Num(NumFmt::OutlineShadow { size: outline_size, scale_x, color: outline_color })];
    let drop = lit("3px 3px 6px rgba(0,0,0,0.85)"@);
    if outline && outline_size > 0 {
        if drop_shadow {
            halo + lit(", "@) + drop
        } else {
            halo
        }
    } else if drop_shadow {
        drop
    } else {
        lit("none"@)
    }
}

/// The default background of a text item: opaque black, `0xFF000000`.
pub open spec fn text_background(bk_color: Option<i64>) -> i64 {
    opt_or(bk_color, 4278190080i64)
}

/// The width CSS of a text item: a fixed width that wraps long words when
/// `custom_width` is positive, line breaks kept otherwise.
pub open spec fn text_width_css(custom_width: i64) -> Seq<char> {
    if custom_width > 0 {
        "; width: "@ + int_decimal(custom_width as int) + "px; word-wrap: break-word"@
    } else {
        "; white-space: pre-line"@
    }
}

/// A text item: a `<div>` styled with its font, colours, shadows and width,
/// holding the text escaped for HTML.
pub open spec fn text_html(t: SceneItemView) -> Seq<Token>
    recommends
        t is Text,
{
    match t {
        SceneItemView::Text {
            base: b,
            text,
            font_face,
            font_size,
            font_bold,
            font_italic,
            color,
            opacity,
            bk_color,
            bk_opacity,
            outline,
            outline_size,
            outline_color,
            text_align,
            drop_shadow,
            custom_width,
            ..
        } => lit("<!-- "@) + lit(b.name) + lit(" (text) -->\n  <div id=\""@) + lit(b.id) + lit(
            "\" class=\"layer\" style=\""@,
        ) + spec_transform_style(b) + lit("; font-family: "@) + lit(spec_font_family(font_face)) + lit(
            "; font-size: "@,
        ) + seq![Token::Num(NumFmt::Display(font_size))] + lit("px; font-weight: "@) + lit(
            if font_bold {
                "bold"@
            } else {
                "normal"@
            },
        ) + lit("; font-style: "@) + lit(
            if font_italic {
                "italic"@
            } else {
                "normal"@
            },
        ) + lit("; color: "@) + seq![Token::Num(NumFmt::Rgba { color, opacity })] + lit(
            "; background: "@,
        ) + seq![
            Token::Num(NumFmt::Background { bk_color: text_background(bk_color), opacity: bk_opacity }),
        ] + lit("; text-shadow: "@) + text_shadow(
            outline,
            outline_size,
            b.scale.x,
            outline_color,
            drop_shadow,
        ) + lit("; text-align: "@) + lit(text_align) + lit("; line-height: 1"@) + lit(
            text_width_css(custom_width),
        ) + seq![Token::Num(NumFmt::Padding(bk_opacity))] + lit("\">"@) + lit(html_escape(text))
            + lit("</div>"@),
        _ => seq![],
    }
}

/// A browser source: an `<iframe>` of its URL at its size that lets clicks through.
pub open spec fn browser_html(b: BaseItemView, url: Seq<char>, w: crate::parser::Real, h: crate::parser::Real) -> Seq<Token> {
    lit("<!-- "@) + lit(b.name) + lit(" (browser source) -->\n  <iframe id=\""@) + lit(b.id) + lit(
        "\" class=\"layer\" src=\""@,
    ) + lit(url) + lit("\" width=\""@) + seq![Token::Num(NumFmt::Display(w))] + lit("\" height=\""@)
        + seq![Token::Num(NumFmt::Display(h))] + lit("\"\n    allow=\"autoplay\" style=\""@)
        + spec_transform_style(b) + lit("; pointer-events: none;\"></iframe>"@)
}

/// A colour source: a `<div>` of its size filled with its colour.
pub open spec fn color_html(b: BaseItemView, color: Option<i64>, w: crate::parser::Real, h: crate::parser::Real) -> Seq<Token> {
    lit("<!-- "@) + lit(b.name) + lit(" (color) -->\n  <div id=\""@) + lit(b.id) + lit(
        "\" class=\"layer\" style=\""@,
    ) + spec_transform_style(b) + lit("; width: "@) + seq![Token::Num(NumFmt::Display(w))] + lit(
        "px; height: "@,
    ) + seq![Token::Num(NumFmt::Display(h))] + lit("px; background: "@) + seq![
        Token::Num(NumFmt::Rgba { color, opacity: crate::parser::Real { bits: crate::parser::REAL_HUNDRED_BITS } }),
    ] + lit(";\"></div>"@)
}

/// The indented children of a group, blank lines between them.
pub open spec fn group_body(children: Seq<Seq<Token>>) -> Seq<Token> {
    joined(children.map_values(|d: Seq<Token>| indent_lines(d)), lit("\n\n"@))
}

/// A group or nested scene: a `<div>` layer holding its children's layers.
pub open spec fn group_html(b: BaseItemView, children: Seq<Seq<Token>>) -> Seq<Token> {
    lit("<!-- "@) + lit(b.name) + lit(" (group) -->\n  <div id=\""@) + lit(b.id) + lit(
        "\" class=\"layer\" style=\""@,
    ) + spec_transform_style(b) + lit("\">\n"@) + group_body(children) + lit("\n  </div>"@)
}

/// The HTML of one item; `None` for sound, which has nothing to show.
pub open spec fn spec_render_item(item: SceneItemView, assets: Seq<(Seq<char>, Option<Seq<char>>)>) -> Option<Seq<Token>>
    decreases item,
{
    match item {
        SceneItemView::Image { base, file } => Some(image_html(base, spec_resolve_asset(file, assets))),
        SceneItemView::Gif { base, file } => Some(gif_html(base, spec_resolve_asset(file, assets))),
        SceneItemView::Video { base, file, looping, .. } => Some(
            video_html(base, file, spec_resolve_asset(file, assets), looping),
        ),
        SceneItemView::Audio { .. } => None,
        SceneItemView::Text { .. } => Some(text_html(item)),
        SceneItemView::Browser { base, url, width, height } => Some(browser_html(base, url, width, height)),
        SceneItemView::Color { base, color, width, height } => Some(color_html(base, color, width, height)),
        SceneItemView::Group { base, items } => Some(group_html(base, spec_render_items(items, assets))),
    }
}

/// The HTML of the items that show something, in order.
pub open spec fn spec_render_items(items: Seq<SceneItemView>, assets: Seq<(Seq<char>, Option<Seq<char>>)>) -> Seq<Seq<Token>>
    decreases items,
{
    if items.len() == 0 {
        seq![]
    } else {
        spec_render_items(items.drop_last(), assets) + match spec_render_item(items.last(), assets) {
            Some(d) => seq![d],
            None => seq![],
        }
    }
}

fn push_name_and_id(doc: &mut Vec<Token>, base: &BaseItem, kind: &str)
    ensures
        final(doc)@ == old(doc)@ + lit(base.name@) + lit(kind@) + lit(base.id@),
{
    push_str(doc, base.name.as_str());
    push_str(doc, kind);
    push_str(doc, base.id.as_str());
}

fn blend_suffix_exec(filters: &Vec<Filter>) -> (r: Vec<Token>)
    ensures
        r@ == blend_suffix(filter_views(filters@)),
{
    if any_key_filter(filters) {
        new_doc("; mix-blend-mode: screen")
    } else {
        Vec::new()
    }
}

fn image_html_exec(base: &BaseItem, src: &String) -> (r: Vec<Token>)
    ensures
        r@ == image_html(base@, src@),
{
    let style = build_transform_style(base);
    let filters = build_filter_suffix(&base.filters);
    let blend = blend_suffix_exec(&base.filters);
    let mut doc = new_doc("<!-- ");
    push_str(&mut doc, base.name.as_str());
    push_str(&mut doc, " (image) -->\n  <img id=\"");
    push_str(&mut doc, base.id.as_str());
    push_str(&mut doc, "\" class=\"layer\" src=\"");
    push_str(&mut doc, src.as_str());
    push_str(&mut doc, "\" alt=\"\" style=\"");
    push_doc(&mut doc, &style);
    push_doc(&mut doc, &filters);
    push_doc(&mut doc, &blend);
    push_str(&mut doc, "\">");
    doc
}

fn gif_html_exec(base: &BaseItem, src: &String) -> (r: Vec<Token>)
    ensures
        r@ == gif_html(base@, src@),
{
    let style = build_transform_style(base);
    let mut doc = new_doc("<!-- ");
    push_str(&mut doc, base.name.as_str());
    push_str(&mut doc, " (gif) -->\n  <img id=\"");
    push_str(&mut doc, base.id.as_str());
    push_str(&mut doc, "\" class=\"layer\" src=\"");
    push_str(&mut doc, src.as_str());
    push_str(&mut doc, "\" alt=\"\" style=\"");
    push_doc(&mut doc, &style);
    push_str(&mut doc, "\">");
    doc
}

fn chroma_video_html_exec(base: &BaseItem, src: &String, looping: bool, k: ChromaKey) -> (r: Vec<Token>)
    ensures
        r@ == chroma_video_html(base@, src@, looping, k),
{
    let style = build_transform_style(base);
    let kr = usize_to_decimal(k.r as usize);
    let kg = usize_to_decimal(k.g as usize);
    let kb = usize_to_decimal(k.b as usize);
    let mut doc = new_doc("<!-- ");
    push_str(&mut doc, base.name.as_str());
    push_str(&mut doc, " (video + chroma key) -->\n  <canvas id=\"");
    push_str(&mut doc, base.id.as_str());
    push_str(&mut doc, "\" class=\"layer\" style=\"");
    push_doc(&mut doc, &style);
    push_str(&mut doc, ";display:none\"></canvas>\n  <script>(function(){\n    var c=document.getElementById('");
    push_str(&mut doc, base.id.as_str());
    push_str(&mut doc, "'),ctx=c.getContext('2d');\n    var v=document.createElement('video');\n    v.src='");
    push_str(&mut doc, src.as_str());
    push_str(&mut doc, "';v.loop=");
    push_str(&mut doc, if looping { "true" } else { "false" });
    push_str(&mut doc, ";v.muted=true;v.playsInline=true;\n    var kr=");
    push_str(&mut doc, kr.as_str());
    push_str(&mut doc, ",kg=");
    push_str(&mut doc, kg.as_str());
    push_str(&mut doc, ",kb=");
    push_str(&mut doc, kb.as_str());
    push_str(&mut doc, ",tSq=");
    push_num(&mut doc, NumFmt::ToleranceSquared(k.similarity));
    push_str(&mut doc, ",started=false;\n    function draw(){\n      if(c.width>0&&c.height>0){\n        ctx.drawImage(v,0,0);\n        try{\n          var d=ctx.getImageData(0,0,c.width,c.height),p=d.data;\n          for(var i=0;i<p.length;i+=4){var dr=p[i]-kr,dg=p[i+1]-kg,db=p[i+2]-kb;if(dr*dr+dg*dg+db*db<tSq)p[i+3]=0;}\n          ctx.putImageData(d,0,0);\n        }catch(e){}\n      }\n      requestAnimationFrame(draw);\n    }\n    v.addEventListener('loadedmetadata',function(){\n      c.width=v.videoWidth;c.height=v.videoHeight;c.style.display='';\n      if(!started){started=true;requestAnimationFrame(draw);}\n    });\n    v.play().catch(function(){});\n  })();</script>");
    doc
}

fn plain_video_html_exec(base: &BaseItem, file: &String, src: &String, looping: bool) -> (r: Vec<Token>)
    ensures
        r@ == plain_video_html(base@, file@, src@, looping),
{
    let style = build_transform_style(base);
    let filters = build_filter_suffix(&base.filters);
    let blend = blend_suffix_exec(&base.filters);
    let ext = text_after_last(file.as_str(), '.');
    let ext_lower = to_lowercase(ext.as_str());
    let mime = if str_eq(ext_lower.as_str(), "webm") {
        "video/webm"
    } else {
        "video/mp4"
    };
    let mut doc = new_doc("<!-- ");
    push_str(&mut doc, base.name.as_str());
    push_str(&mut doc, " (video) -->\n  <video id=\"");
    push_str(&mut doc, base.id.as_str());
    push_str(&mut doc, "\" class=\"layer\" autoplay");
    push_str_if(&mut doc, looping, " loop");
    push_str(&mut doc, " muted playsinline style=\"");
    push_doc(&mut doc, &style);
    push_doc(&mut doc, &filters);
    push_doc(&mut doc, &blend);
    push_str(&mut doc, "\">\n    <source src=\"");
    push_str(&mut doc, src.as_str());
    push_str(&mut doc, "\" type=\"");
    push_str(&mut doc, mime);
    push_str(&mut doc, "\">\n  </video>");
    doc
}

fn video_html_exec(base: &BaseItem, file: &String, src: &String, looping: bool) -> (r: Vec<Token>)
    ensures
        r@ == video_html(base@, file@, src@, looping),
{
    match get_chroma_key(&base.filters) {
        Some(k) => chroma_video_html_exec(base, src, looping, k),
        None => plain_video_html_exec(base, file, src, looping),
    }
}

fn text_shadow_exec(
    outline: bool,
    outline_size: i64,
    scale_x: crate::parser::Real,
    outline_color: Option<i64>,
    drop_shadow: bool,
) -> (r: Vec<Token>)
    ensures
        r@ == text_shadow(outline, outline_size, scale_x, outline_color, drop_shadow),
{
    if outline && outline_size > 0 {
        let mut doc: Vec<Token> = Vec::new();
        push_num(&mut doc, NumFmt::OutlineShadow { size: outline_size, scale_x, color: outline_color });
        assert(doc@ =~= seq![Token::Num(NumFmt::OutlineShadow { size: outline_size, scale_x, color: outline_color })]);
        if drop_shadow {
            push_str(&mut doc, ", ");
            push_str(&mut doc, "3px 3px 6px rgba(0,0,0,0.85)");
        }
        doc
    } else if drop_shadow {
        new_doc("3px 3px 6px rgba(0,0,0,0.85)")
    } else {
        new_doc("none")
    }
}

fn text_width_css_exec(custom_width: i64) -> (r: String)
    ensures
        r@ == text_width_css(custom_width),
{
    if custom_width > 0 {
        let mut s = String::from_str("; width: ");
        let digits = i64_to_decimal(custom_width);
        s.append(digits.as_str());
        s.append("px; word-wrap: break-word");
        s
    } else {
        String::from_str("; white-space: pre-line")
    }
}

fn text_html_exec(item: &SceneItem) -> (r: Vec<Token>)
    requires
        item_view(*item) is Text,
    ensures
        r@ == text_html(item_view(*item)),
{
    match item {
        SceneItem::Text {
            base,
            text,
            font_face,
            font_size,
            font_bold,
            font_italic,
            color,
            opacity,
            bk_color,
            bk_opacity,
            outline,
            outline_size,
            outline_color,
            text_align,
            drop_shadow,
            custom_width,
            ..
        } => {
            let style = build_transform_style(base);
            let family = font_family(font_face.as_str());
            let bk = match bk_color {
                Some(c) => *c,
                None => 4278190080i64,
            };
            let shadow = text_shadow_exec(*outline, *outline_size, base.scale.x, *outline_color, *drop_shadow);
            let width_css = text_width_css_exec(*custom_width);
            let escaped = escape_html(text.as_str());
            let mut doc = new_doc("<!-- ");
            push_str(&mut doc, base.name.as_str());
            push_str(&mut doc, " (text) -->\n  <div id=\"");
            push_str(&mut doc, base.id.as_str());
            push_str(&mut doc, "\" class=\"layer\" style=\"");
            push_doc(&mut doc, &style);
            push_str(&mut doc, "; font-family: ");
            push_str(&mut doc, family.as_str());
            push_str(&mut doc, "; font-size: ");
            push_num(&mut doc, NumFmt::Display(*font_size));
            push_str(&mut doc, "px; font-weight: ");
            push_str(&mut doc, if *font_bold { "bold" } else { "normal" });
            push_str(&mut doc, "; font-style: ");
            push_str(&mut doc, if *font_italic { "italic" } else { "normal" });
            push_str(&mut doc, "; color: ");
            push_num(&mut doc, NumFmt::Rgba { color: *color, opacity: *opacity });
            push_str(&mut doc, "; background: ");
            push_num(&mut doc, NumFmt::Background { bk_color: bk, opacity: *bk_opacity });
            push_str(&mut doc, "; text-shadow: ");
            push_doc(&mut doc, &shadow);
            push_str(&mut doc, "; text-align: ");
            push_str(&mut doc, text_align.as_str());
            push_str(&mut doc, "; line-height: 1");
            push_str(&mut doc, width_css.as_str());
            push_num(&mut doc, NumFmt::Padding(*bk_opacity));
            push_str(&mut doc, "\">");
            push_str(&mut doc, escaped.as_str());
            push_str(&mut doc, "</div>");
            doc
        },
        _ => Vec::new(),
    }
}

fn browser_html_exec(base: &BaseItem, url: &String, w: crate::parser::Real, h: crate::parser::Real) -> (r: Vec<Token>)
    ensures
        r@ == browser_html(base@, url@, w, h),
{
    let style = build_transform_style(base);
    let mut doc = new_doc("<!-- ");
    push_str(&mut doc, base.name.as_str());
    push_str(&mut doc, " (browser source) -->\n  <iframe id=\"");
    push_str(&mut doc, base.id.as_str());
    push_str(&mut doc, "\" class=\"layer\" src=\"");
    push_str(&mut doc, url.as_str());
    push_str(&mut doc, "\" width=\"");
    push_num(&mut doc, NumFmt::Display(w));
    push_str(&mut doc, "\" height=\"");
    push_num(&mut doc, NumFmt::Display(h));
    push_str(&mut doc, "\"\n    allow=\"autoplay\" style=\"");
    push_doc(&mut doc, &style);
    push_str(&mut doc, "; pointer-events: none;\"></iframe>");
    doc
}

fn color_html_exec(base: &BaseItem, color: Option<i64>, w: crate::parser::Real, h: crate::parser::Real) -> (r: Vec<Token>)
    ensures
        r@ == color_html(base@, color, w, h),
{
    let style = build_transform_style(base);
    let mut doc = new_doc("<!-- ");
    push_str(&mut doc, base.name.as_str());
    push_str(&mut doc, " (color) -->\n  <div id=\"");
    push_str(&mut doc, base.id.as_str());
    push_str(&mut doc, "\" class=\"layer\" style=\"");
    push_doc(&mut doc, &style);
    push_str(&mut doc, "; width: ");
    push_num(&mut doc, NumFmt::Display(w));
    push_str(&mut doc, "px; height: ");
    push_num(&mut doc, NumFmt::Display(h));
    push_str(&mut doc, "px; background: ");
    push_num(&mut doc, NumFmt::Rgba { color, opacity: crate::parser::Real { bits: crate::parser::REAL_HUNDRED_BITS } });
    push_str(&mut doc, ";\"></div>");
    doc
}

fn group_body_exec(children: &Vec<Vec<Token>>) -> (r: Vec<Token>)
    ensures
        r@ == group_body(docs_view(children@)),
{
    let ghost cv = docs_view(children@);
    let mut out: Vec<Vec<Token>> = Vec::new();
    let mut i: usize = 0;
    while i < children.len()
        invariant
            i <= children.len(),
            cv == docs_view(children@),
            docs_view(out@) =~= cv.take(i as int).map_values(|d: Seq<Token>| indent_lines(d)),
        decreases children.len() - i,
    {
        let d = indent(&children[i]);
        let ghost before = out@;
        out.push(d);
        assert(docs_view(out@) =~= docs_view(before).push(d@));
        assert(cv.take(i + 1) =~= cv.take(i as int).push(cv[i as int]));
        i = i + 1;
    }
    assert(cv.take(children.len() as int) =~= cv);
    join_docs(&out, "\n\n")
}

fn group_html_exec(base: &BaseItem, children: &Vec<Vec<Token>>) -> (r: Vec<Token>)
    ensures
        r@ == group_html(base@, docs_view(children@)),
{
    let style = build_transform_style(base);
    let body = group_body_exec(children);
    let mut doc = new_doc("<!-- ");
    push_str(&mut doc, base.name.as_str());
    push_str(&mut doc, " (group) -->\n  <div id=\"");
    push_str(&mut doc, base.id.as_str());
    push_str(&mut doc, "\" class=\"layer\" style=\"");
    push_doc(&mut doc, &style);
    push_str(&mut doc, "\">\n");
    push_doc(&mut doc, &body);
    push_str(&mut doc, "\n  </div>");
    doc
}


/// The HTML of one item, `None` for sound.
pub fn render_item(item: &SceneItem, asset_map: &Vec<AssetEntry>) -> (r: Option<Vec<Token>>)
    ensures
        match r {
            Some(d) => spec_render_item(item_view(*item), assets_view(asset_map@)) == Some(d@),
            None => spec_render_item(item_view(*item), assets_view(asset_map@)) is None,
        },
    decreases item,
{
    match item {
        SceneItem::Image { base, file } => {
            let src = resolve_asset(file.as_str(), asset_map);
            Some(image_html_exec(base, &src))
        },
        SceneItem::Gif { base, file } => {
            let src = resolve_asset(file.as_str(), asset_map);
            Some(gif_html_exec(base, &src))
        },
        SceneItem::Video { base, file, looping, .. } => {
            let src = resolve_asset(file.as_str(), asset_map);
            Some(video_html_exec(base, file, &src, *looping))
        },
        SceneItem::Audio { .. } => None,
        SceneItem::Text { .. } => Some(text_html_exec(item)),
        SceneItem::Browser { base, url, width, height } => Some(browser_html_exec(base, url, *width, *height)),
        SceneItem::Color { base, color, width, height } => Some(color_html_exec(base, *color, *width, *height)),
        SceneItem::Group { base, items } => {
            let children = render_items(items, asset_map);
            Some(group_html_exec(base, &children))
        },
    }
}

/// The HTML of the items that show something, in order.
pub fn render_items(items: &Vec<SceneItem>, asset_map: &Vec<AssetEntry>) -> (r: Vec<Vec<Token>>)
    ensures
        docs_view(r@) == spec_render_items(items_view(items@), assets_view(asset_map@)),
    decreases items,
{
    let ghost av = assets_view(asset_map@);
    let mut out: Vec<Vec<Token>> = Vec::new();
    let mut i: usize = 0;
    while i < items.len()
        invariant
            i <= items.len(),
            av == assets_view(asset_map@),
            docs_view(out@) == spec_render_items(items_view(items@.take(i as int)), av),
        decreases items.len() - i,
    {
        proof {
            crate::parser::lemma_items_view_push(items@.take(i as int), items@[i as int]);
            assert(items@.take(i as int).push(items@[i as int]) =~= items@.take(i + 1));
            assert(items_view(items@.take(i + 1)).drop_last() =~= items_view(items@.take(i as int)));
        }
        assert(decreases_to!(items => items@[i as int]));
        let ghost before = out@;
        match render_item(&items[i], asset_map) {
            Some(d) => {
                out.push(d);
                assert(docs_view(out@) =~= docs_view(before) + seq![d@]);
            },
            None => {
                assert(docs_view(out@) =~= docs_view(before) + Seq::<Seq<Token>>::empty());
            },
        }
        i = i + 1;
    }
    assert(items@.take(items.len() as int) =~= items@);
    out
}

// ─── Page ────────────────────────────────────────────────────────────────────

/// The `<style>` block of the downloaded fonts' CSS, its lines indented;
/// nothing when there is no font CSS.
pub open spec fn font_style_block(font_css: Seq<char>) -> Seq<Token> {
    if font_css.len() == 0 {
        seq![]
    } else {
        lit("  <style>\n"@) + indent_lines(lit(font_css)) + lit("\n  </style>\n"@)
    }
}

/// The overlay page of a scene: the canvas-sized page with every item that
/// shows something as a layer, in scene order, the font CSS, and scripts
/// that fit the canvas to the window and report the layers.
pub open spec fn spec_generate_html(
    name: Seq<char>,
    canvas: Canvas,
    items: Seq<SceneItemView>,
    assets: Seq<(Seq<char>, Option<Seq<char>>)>,
    font_css: Seq<char>,
) -> Seq<Token> {
    let font_style = font_style_block(font_css);
    let layers = joined(spec_render_items(items, assets), lit("\n\n  "@));
    lit("<!DOCTYPE html>\n<html lang=\"pt-BR\">\n<head>\n  <meta charset=\"UTF-8\">\n  <title>"@) + lit(name) + lit("</title>\n"@) + font_style + lit("  <style>\n    *, *::before, *::after { margin: 0; padding: 0; box-sizing: border-box; }\n\n    html, body {\n      width: "@) + seq![Token::Num(NumFmt::Display(canvas.x))] + lit("px;\n      height: "@) + seq![Token::Num(NumFmt::Display(canvas.y))] + lit("px;\n      overflow: hidden;\n      background: transparent;\n    }\n\n    .canvas {\n      position: relative;\n      width: "@) + seq![Token::Num(NumFmt::Display(canvas.x))] + lit("px;\n      height: "@) + seq![Token::Num(NumFmt::Display(canvas.y))] + lit("px;\n      overflow: hidden;\n    }\n\n    /* Every layer is absolutely positioned, scaling from top-left — matches OBS align=5 */\n    .layer {\n      position: absolute;\n      transform-origin: top left;\n    }\n\n    iframe.layer { border: none; background: transparent; }\n    video.layer  { display: block; }\n    img.layer    { display: block; }\n  </style>\n</head>\n<body>\n  <div class=\"canvas\">\n  "@) + layers + lit("\n  </div>\n\n  <script>\n  // ── Auto-scale canvas to fit viewport (local preview only) ───────────────────\n  // When used as OBS browser source, the viewport is exactly "@) + seq![Token::Num(NumFmt::Display(canvas.x))] + lit("x"@) + seq![Token::Num(NumFmt::Display(canvas.y))] + lit(", so\n  // scale will be 1.0 and nothing changes. Smaller windows scale down to fit.\n  (function() {\n    var CW="@) + seq![Token::Num(NumFmt::Display(canvas.x))] + lit(", CH="@) + seq![Token::Num(NumFmt::Display(canvas.y))] + lit(";\n    function fit() {\n      var s = Math.min(window.innerWidth/CW, window.innerHeight/CH);\n      if (s < 0.999) {\n        document.documentElement.style.transformOrigin = 'top left';\n        document.documentElement.style.transform = 'scale(' + s + ')';\n        document.documentElement.style.width  = CW + 'px';\n        document.documentElement.style.height = CH + 'px';\n        document.body.style.overflow = 'hidden';\n      } else {\n        document.documentElement.style.transform = '';\n      }\n    }\n    fit();\n    window.addEventListener('resize', fit);\n  })();\n\n  // ── OBS Overlay Diagnostic — open F12 → Console to see this report ──────────\n  window.addEventListener('load', function() {\n    var CW = "@) + seq![Token::Num(NumFmt::Display(canvas.x))] + lit(", CH = "@) + seq![Token::Num(NumFmt::Display(canvas.y))] + lit(";\n    console.log('%c=== OBS Overlay Diagnostic ===', 'font-weight:bold;font-size:14px;color:#0af');\n    console.log('Canvas: ' + CW + 'x' + CH);\n    console.log('Browser viewport: ' + window.innerWidth + 'x' + window.innerHeight);\n    if (window.innerWidth < CW || window.innerHeight < CH) {\n      console.warn('⚠ Viewport smaller than canvas! Zoom out (Ctrl+-) until you see the full ' + CW + 'x' + CH + ' canvas.');\n    }\n    var layers = document.querySelectorAll('.layer');\n    console.log('Total layers: ' + layers.length);\n    console.log('');\n    layers.forEach(function(el) {\n      var r = el.getBoundingClientRect();\n      var style = el.getAttribute('style') || '';\n      var tag = el.tagName.toLowerCase();\n      var extra = '';\n      if (tag === 'img')    extra = ' | natural: ' + el.naturalWidth + 'x' + el.naturalHeight;\n      if (tag === 'video')  extra = ' | video: ' + el.videoWidth + 'x' + el.videoHeight;\n      if (tag === 'canvas') extra = ' | canvas attr: ' + el.width + 'x' + el.height;\n      if (tag === 'div')    extra = ' | bg: ' + window.getComputedStyle(el).backgroundColor + ' | size: ' + Math.round(r.width) + 'x' + Math.round(r.height);\n      var inCanvas = r.left < CW && r.top < CH && r.right > 0 && r.bottom > 0;\n      var vis = inCanvas ? '✓' : '⚠ OUT-OF-BOUNDS';\n      console.log(\n        '%c[' + tag + '] ' + el.id + ' ' + vis,\n        inCanvas ? 'color:#4f4' : 'color:#fa0',\n        '| rect: (' + Math.round(r.left) + ',' + Math.round(r.top) + ') ' + Math.round(r.width) + 'x' + Math.round(r.height) + extra\n      );\n    });\n    console.log('');\n    console.log('%c=== End of Report ===', 'font-weight:bold;color:#0af');\n  });\n  </script>\n</body>\n</html>"@)
}

fn font_style_exec(font_css: &str) -> (r: Vec<Token>)
    ensures
        r@ == font_style_block(font_css@),
{
    if font_css.is_empty() {
        return Vec::new();
    }
    let css = new_doc(font_css);
    let body = indent(&css);
    let mut doc = new_doc("  <style>\n");
    push_doc(&mut doc, &body);
    push_str(&mut doc, "\n  </style>\n");
    doc
}

/// The overlay page of a scene, with media paths taken from the asset map
/// and the given font CSS.
pub fn generate_html(scene: &SceneData, asset_map: &Vec<AssetEntry>, font_css: &str) -> (r: Vec<Token>)
    ensures
        r@ == spec_generate_html(
            scene.name@,
            scene.canvas,
            items_view(scene.items@),
            assets_view(asset_map@),
            font_css@,
        ),
{
    let rendered = render_items(&scene.items, asset_map);
    let layers = join_docs(&rendered, "\n\n  ");
    let font_style = font_style_exec(font_css);
    let mut doc = new_doc("<!DOCTYPE html>\n<html lang=\"pt-BR\">\n<head>\n  <meta charset=\"UTF-8\">\n  <title>");
    push_str(&mut doc, scene.name.as_str());
    push_str(&mut doc, "</title>\n");
    push_doc(&mut doc, &font_style);
    push_str(&mut doc, "  <style>\n    *, *::before, *::after { margin: 0; padding: 0; box-sizing: border-box; }\n\n    html, body {\n      width: ");
    push_num(&mut doc, NumFmt::Display(scene.canvas.x));
    push_str(&mut doc, "px;\n      height: ");
    push_num(&mut doc, NumFmt::Display(scene.canvas.y));
    push_str(&mut doc, "px;\n      overflow: hidden;\n      background: transparent;\n    }\n\n    .canvas {\n      position: relative;\n      width: ");
    push_num(&mut doc, NumFmt::Display(scene.canvas.x));
    push_str(&mut doc, "px;\n      height: ");
    push_num(&mut doc, NumFmt::Display(scene.canvas.y));
    push_str(&mut doc, "px;\n      overflow: hidden;\n    }\n\n    /* Every layer is absolutely positioned, scaling from top-left — matches OBS align=5 */\n    .layer {\n      position: absolute;\n      transform-origin: top left;\n    }\n\n    iframe.layer { border: none; background: transparent; }\n    video.layer  { display: block; }\n    img.layer    { display: block; }\n  </style>\n</head>\n<body>\n  <div class=\"canvas\">\n  ");
    push_doc(&mut doc, &layers);
    push_str(&mut doc, "\n  </div>\n\n  <script>\n  // ── Auto-scale canvas to fit viewport (local preview only) ───────────────────\n  // When used as OBS browser source, the viewport is exactly ");
    push_num(&mut doc, NumFmt::Display(scene.canvas.x));
    push_str(&mut doc, "x");
    push_num(&mut doc, NumFmt::Display(scene.canvas.y));
    push_str(&mut doc, ", so\n  // scale will be 1.0 and nothing changes. Smaller windows scale down to fit.\n  (function() {\n    var CW=");
    push_num(&mut doc, NumFmt::Display(scene.canvas.x));
    push_str(&mut doc, ", CH=");
    push_num(&mut doc, NumFmt::Display(scene.canvas.y));
    push_str(&mut doc, ";\n    function fit() {\n      var s = Math.min(window.innerWidth/CW, window.innerHeight/CH);\n      if (s < 0.999) {\n        document.documentElement.style.transformOrigin = 'top left';\n        document.documentElement.style.transform = 'scale(' + s + ')';\n        document.documentElement.style.width  = CW + 'px';\n        document.documentElement.style.height = CH + 'px';\n        document.body.style.overflow = 'hidden';\n      } else {\n        document.documentElement.style.transform = '';\n      }\n    }\n    fit();\n    window.addEventListener('resize', fit);\n  })();\n\n  // ── OBS Overlay Diagnostic — open F12 → Console to see this report ──────────\n  window.addEventListener('load', function() {\n    var CW = ");
    push_num(&mut doc, NumFmt::Display(scene.canvas.x));
    push_str(&mut doc, ", CH = ");
    push_num(&mut doc, NumFmt::Display(scene.canvas.y));
    push_str(&mut doc, ";\n    console.log('%c=== OBS Overlay Diagnostic ===', 'font-weight:bold;font-size:14px;color:#0af');\n    console.log('Canvas: ' + CW + 'x' + CH);\n    console.log('Browser viewport: ' + window.innerWidth + 'x' + window.innerHeight);\n    if (window.innerWidth < CW || window.innerHeight < CH) {\n      console.warn('⚠ Viewport smaller than canvas! Zoom out (Ctrl+-) until you see the full ' + CW + 'x' + CH + ' canvas.');\n    }\n    var layers = document.querySelectorAll('.layer');\n    console.log('Total layers: ' + layers.length);\n    console.log('');\n    layers.forEach(function(el) {\n      var r = el.getBoundingClientRect();\n      var style = el.getAttribute('style') || '';\n      var tag = el.tagName.toLowerCase();\n      var extra = '';\n      if (tag === 'img')    extra = ' | natural: ' + el.naturalWidth + 'x' + el.naturalHeight;\n      if (tag === 'video')  extra = ' | video: ' + el.videoWidth + 'x' + el.videoHeight;\n      if (tag === 'canvas') extra = ' | canvas attr: ' + el.width + 'x' + el.height;\n      if (tag === 'div')    extra = ' | bg: ' + window.getComputedStyle(el).backgroundColor + ' | size: ' + Math.round(r.width) + 'x' + Math.round(r.height);\n      var inCanvas = r.left < CW && r.top < CH && r.right > 0 && r.bottom > 0;\n      var vis = inCanvas ? '✓' : '⚠ OUT-OF-BOUNDS';\n      console.log(\n        '%c[' + tag + '] ' + el.id + ' ' + vis,\n        inCanvas ? 'color:#4f4' : 'color:#fa0',\n        '| rect: (' + Math.round(r.left) + ',' + Math.round(r.top) + ') ' + Math.round(r.width) + 'x' + Math.round(r.height) + extra\n      );\n    });\n    console.log('');\n    console.log('%c=== End of Report ===', 'font-weight:bold;color:#0af');\n  });\n  </script>\n</body>\n</html>");
    doc
}

/// How many items among `items` show something: all but sounds.
pub open spec fn shown_count(items: Seq<SceneItemView>) -> nat
    decreases items.len(),
{
    if items.len() == 0 {
        0
    } else {
        shown_count(items.drop_last()) + if items.last() is Audio {
            0nat
        } else {
            1nat
        }
    }
}

/// Sounds are skipped: the page has one block for each item that is not a
/// sound, and none for a sound.
pub proof fn law_render_skips_sound(
    items: Seq<SceneItemView>,
    assets: Seq<(Seq<char>, Option<Seq<char>>)>,
)
    ensures
        spec_render_items(items, assets).len() == shown_count(items),
        forall|i: int|
            0 <= i < items.len() ==> (#[trigger] spec_render_item(items[i], assets) is None
                <==> items[i] is Audio),
    decreases items.len(),
{
    if items.len() > 0 {
        law_render_skips_sound(items.drop_last(), assets);
        let last = items.last();
        assert(spec_render_item(last, assets) is None <==> last is Audio);
        match spec_render_item(last, assets) {
            Some(d) => assert(spec_render_items(items, assets) == spec_render_items(items.drop_last(), assets) + seq![d]),
            None => assert(spec_render_items(items, assets) == spec_render_items(items.drop_last(), assets) + Seq::<Seq<Token>>::empty()),
        }
    }
}

/// Escaped text without line breaks holds no `<` and no `>`: it cannot open
/// or close a tag.
pub proof fn law_escaped_text_has_no_tags(s: Seq<char>)
    requires
        !s.contains('\n'),
    ensures
        !html_escape(s).contains('<'),
        !html_escape(s).contains('>'),
    decreases s.len(),
{
    reveal_strlit("&amp;");
    reveal_strlit("&lt;");
    reveal_strlit("&gt;");
    if s.len() > 0 {
        assert(!s.drop_last().contains('\n')) by {
            if s.drop_last().contains('\n') {
                let i = choose|i: int| 0 <= i < s.drop_last().len() && s.drop_last()[i] == '\n';
                assert(s[i] == '\n');
            }
        }
        law_escaped_text_has_no_tags(s.drop_last());
        let a = html_escape(s.drop_last());
        let b = escape_char(s.last());
        assert(s.last() != '\n') by {
            assert(s[s.len() - 1] == s.last());
        }
        assert(!b.contains('<') && !b.contains('>'));
        assert forall|c: char| !a.contains(c) && !b.contains(c) implies !(#[trigger] (a + b).contains(c)) by {
            if (a + b).contains(c) {
                let i = choose|i: int| 0 <= i < (a + b).len() && (a + b)[i] == c;
                if i < a.len() {
                    assert(a[i] == c);
                } else {
                    assert(b[i - a.len()] == c);
                }
            }
        }
    }
}

/// `s` ends with `p`.
pub open spec fn has_suffix<T>(s: Seq<T>, p: Seq<T>) -> bool {
    p.len() <= s.len() && s.skip(s.len() - p.len()) == p
}

/// Where OBS anchors an item, CSS moves it: an anchor on the left edge
/// (alignment bit 1 without bit 2) gives no horizontal shift, on the right
/// edge (bit 2) a shift by the whole width, in the middle half of it; the
/// vertical shift goes the same way by the top (4) and bottom (8) bits. A
/// top-left anchor needs no translation at all.
pub proof fn law_anchor_translation(align: i64)
    ensures
        ((align & 3) == 1 && (align & 12) == 4) <==> translate_css(align).len() == 0,
        (align & 3) == 1 && (align & 12) != 4 ==> has_prefix(translate_css(align), "translate(0%, "@),
        (align & 3) == 2 ==> has_prefix(translate_css(align), "translate(-100%, "@),
        (align & 3) == 0 || (align & 3) == 3 ==> has_prefix(translate_css(align), "translate(-50%, "@),
        (align & 12) == 4 && (align & 3) != 1 ==> has_suffix(translate_css(align), ", 0%) "@),
        (align & 12) == 8 ==> has_suffix(translate_css(align), ", -100%) "@),
        (align & 12) == 0 || (align & 12) == 12 ==> has_suffix(translate_css(align), ", -50%) "@),
{
    reveal_strlit("translate(");
    reveal_strlit(", ");
    reveal_strlit(") ");
    reveal_strlit("0%");
    reveal_strlit("-50%");
    reveal_strlit("-100%");
    reveal_strlit("translate(0%, ");
    reveal_strlit("translate(-100%, ");
    reveal_strlit("translate(-50%, ");
    reveal_strlit(", 0%) ");
    reveal_strlit(", -100%) ");
    reveal_strlit(", -50%) ");
    let h = align & 3;
    let v = align & 12;
    let tx: Seq<char> = if h == 2 { "-100%"@ } else if h != 1 { "-50%"@ } else { "0%"@ };
    let ty: Seq<char> = if v == 8 { "-100%"@ } else if v != 4 { "-50%"@ } else { "0%"@ };
    let s = translate_css(align);
    if !(h == 1 && v == 4) {
        assert(s == "translate("@ + tx + ", "@ + ty + ") "@);
        assert(s.len() > 0);
        assert(s.take(("translate("@ + tx + ", "@).len() as int) =~= "translate("@ + tx + ", "@);
        assert(s.skip(s.len() - (", "@ + ty + ") "@).len()) =~= ", "@ + ty + ") "@);
        assert("translate("@ + "0%"@ + ", "@ =~= "translate(0%, "@);
        assert("translate("@ + "-100%"@ + ", "@ =~= "translate(-100%, "@);
        assert("translate("@ + "-50%"@ + ", "@ =~= "translate(-50%, "@);
        assert(", "@ + "0%"@ + ") "@ =~= ", 0%) "@);
        assert(", "@ + "-100%"@ + ") "@ =~= ", -100%) "@);
        assert(", "@ + "-50%"@ + ") "@ =~= ", -50%) "@);
    }
}

/// The drop shadow of a text item always comes last in its text-shadow, after
/// the outline halo when there is one; an outline of positive size always
/// comes first; with neither the text-shadow is `none`.
pub proof fn law_text_shadow_parts(
    outline: bool,
    outline_size: i64,
    scale_x: crate::parser::Real,
    outline_color: Option<i64>,
    drop_shadow: bool,
)
    ensures
        ({
            let s = text_shadow(outline, outline_size, scale_x, outline_color, drop_shadow);
            let halo = Token::Num(NumFmt::OutlineShadow { size: outline_size, scale_x, color: outline_color });
            let drop = lit("3px 3px 6px rgba(0,0,0,0.85)"@);
            &&& drop_shadow ==> has_suffix(s, drop)
            &&& outline && outline_size > 0 ==> s.len() > 0 && s[0] == halo
            &&& outline && outline_size > 0 && drop_shadow ==> s == seq![halo] + lit(", "@) + drop
            &&& !drop_shadow && !(outline && outline_size > 0) ==> s == lit("none"@)
        }),
{
    reveal_strlit("3px 3px 6px rgba(0,0,0,0.85)");
    reveal_strlit(", ");
    reveal_strlit("none");
    let halo = Token::Num(NumFmt::OutlineShadow { size: outline_size, scale_x, color: outline_color });
    let drop = lit("3px 3px 6px rgba(0,0,0,0.85)"@);
    let s = text_shadow(outline, outline_size, scale_x, outline_color, drop_shadow);
    if drop_shadow {
        assert(s.skip(s.len() - drop.len()) =~= drop);
    }
}

/// Whether a filter keys a colour out: a colour or chroma key filter.
proof fn lemma_chroma_skip(filters: Seq<FilterView>, j: int, i: int)
    requires
        0 <= j <= i < filters.len(),
        forall|k: int| j <= k < i ==> !is_key_filter_id(#[trigger] filters[k].id),
    ensures
        chroma_key_from(filters, j) == chroma_key_from(filters, i),
    decreases i - j,
{
    if j < i {
        assert(!is_key_filter_id(filters[j].id));
        lemma_chroma_skip(filters, j + 1, i);
    }
}

/// The key colour of the first key filter that is a chroma key is the one its
/// type names: blue (0, 0, 255), magenta (255, 0, 255), custom the red, green
/// and blue bytes of its custom colour, and green (0, 255, 0) otherwise; its
/// similarity comes along.
pub proof fn law_chroma_key_colour(filters: Seq<FilterView>, i: int)
    requires
        0 <= i < filters.len(),
        forall|k: int| 0 <= k < i ==> !is_key_filter_id(#[trigger] filters[k].id),
        filters[i].id == "chroma_key_filter"@ || filters[i].id == "chroma_key_filter_v2"@,
    ensures
        ({
            let t = opt_or(filters[i].settings.key_color_type, "green"@);
            let c = opt_or(filters[i].settings.custom_color, 0i64) as u32;
            let k = chroma_key_from(filters, 0);
            &&& k is Some
            &&& k->0.similarity == filters[i].settings.similarity
            &&& t == "blue"@ ==> k->0.r == 0 && k->0.g == 0 && k->0.b == 255
            &&& t == "magenta"@ ==> k->0.r == 255 && k->0.g == 0 && k->0.b == 255
            &&& t == "custom"@ ==> k->0.r == c & 0xFF && k->0.g == (c >> 8) & 0xFF && k->0.b == (c
                >> 16) & 0xFF
            &&& t != "blue"@ && t != "magenta"@ && t != "custom"@ ==> k->0.r == 0 && k->0.g == 255
                && k->0.b == 0
        }),
{
    reveal_strlit("blue");
    reveal_strlit("magenta");
    reveal_strlit("custom");
    assert("blue"@.len() == 4);
    assert("magenta"@.len() == 7);
    assert("custom"@.len() == 6);
    lemma_chroma_skip(filters, 0, i);
    let f = filters[i];
    let t = opt_or(f.settings.key_color_type, "green"@);
    let rgb = key_rgb(opt_or(f.settings.custom_color, 0i64));
    assert(chroma_key_from(filters, i) == Some(ChromaKey {
        r: if t == "blue"@ { 0u32 } else if t == "magenta"@ { 255u32 } else if t == "custom"@ { rgb.0 } else { 0u32 },
        g: if t == "blue"@ { 0u32 } else if t == "magenta"@ { 0u32 } else if t == "custom"@ { rgb.1 } else { 255u32 },
        b: if t == "blue"@ { 255u32 } else if t == "magenta"@ { 255u32 } else if t == "custom"@ { rgb.2 } else { 0u32 },
        similarity: f.settings.similarity,
    }));
}

/// The first key filter, when it is a colour key, keys its colour's red,
/// green and blue bytes, except a near-black colour (each byte below 10),
/// which keys nothing.
pub proof fn law_colour_key(filters: Seq<FilterView>, i: int)
    requires
        0 <= i < filters.len(),
        forall|k: int| 0 <= k < i ==> !is_key_filter_id(#[trigger] filters[k].id),
        filters[i].id == "color_key_filter"@ || filters[i].id == "color_key_filter_v2"@,
    ensures
        ({
            let c = opt_or(filters[i].settings.color, 0i64) as u32;
            let (r, g, b) = (c & 0xFF, (c >> 8) & 0xFF, (c >> 16) & 0xFF);
            &&& r < 10 && g < 10 && b < 10 ==> chroma_key_from(filters, 0) is None
            &&& !(r < 10 && g < 10 && b < 10) ==> chroma_key_from(filters, 0) == Some(
                ChromaKey { r, g, b, similarity: filters[i].settings.similarity },
            )
        }),
{
    reveal_strlit("color_key_filter");
    reveal_strlit("color_key_filter_v2");
    reveal_strlit("chroma_key_filter");
    reveal_strlit("chroma_key_filter_v2");
    assert("color_key_filter"@.len() == 16);
    assert("color_key_filter_v2"@.len() == 19);
    assert("chroma_key_filter"@.len() == 17);
    assert("chroma_key_filter_v2"@.len() == 20);
    lemma_chroma_skip(filters, 0, i);
}

} // verus!
