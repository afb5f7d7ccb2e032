//! The scene model and the parser that builds it from an OBS scene collection.

use vstd::prelude::*;
use vstd::string::StringExecFns;
use crate::json::{
    JsonValue, as_array, as_bool, as_f64_bits, as_i64, as_str, deref_opt, field, j_array, j_bool,
    j_f64, j_field, j_i64, j_str,
};
use crate::text::{
    after_last, i64_to_decimal, int_decimal, join, joined, spec_lowercase, spec_trim, str_eq, string_views,
    text_after_last, to_lowercase, trim,
};
use crate::utils::{fix_mojibake, spec_fix_mojibake};

verus! {

/// A double-precision number, carried by its IEEE-754 bit pattern. The library
/// moves such numbers from the scene collection to the overlay; arithmetic and
/// formatting on them happen where the overlay text is rendered.
#[derive(Clone, Copy, Debug, PartialEq, Eq, Structural)]
pub struct Real {
    pub bits: u64,
}

/// The bit pattern of 0.0.
pub const REAL_ZERO_BITS: u64 = 0x0000_0000_0000_0000;

/// The bit pattern of 1.0.
pub const REAL_ONE_BITS: u64 = 0x3FF0_0000_0000_0000;

/// The bit pattern of 30.0 (default font size).
pub const REAL_THIRTY_BITS: u64 = 0x403E_0000_0000_0000;

/// The bit pattern of 100.0 (default opacity and playback speed, in percent).
pub const REAL_HUNDRED_BITS: u64 = 0x4059_0000_0000_0000;

/// The bit pattern of 1920.0 (default canvas width).
pub const REAL_1920_BITS: u64 = 0x409E_0000_0000_0000;

/// The bit pattern of 1080.0 (default canvas height).
pub const REAL_1080_BITS: u64 = 0x4090_E000_0000_0000;

/// Size of the OBS canvas.
#[derive(Clone, Copy, Debug, PartialEq, Eq, Structural)]
pub struct Canvas {
    pub x: Real,
    pub y: Real,
}

/// Position of an item on the canvas.
#[derive(Clone, Copy, Debug, PartialEq, Eq, Structural)]
pub struct Pos {
    pub x: Real,
    pub y: Real,
}

/// Scale of an item.
#[derive(Clone, Copy, Debug, PartialEq, Eq, Structural)]
pub struct Scale {
    pub x: Real,
    pub y: Real,
}

/// Bounding box of an item.
#[derive(Clone, Copy, Debug, PartialEq, Eq, Structural)]
pub struct Bounds {
    pub x: Real,
    pub y: Real,
}

/// The settings of a source filter that the overlay uses.
pub struct FilterSettings {
    pub similarity: Option<Real>,
    pub key_color_type: Option<String>,
    pub custom_color: Option<i64>,
    pub color: Option<i64>,
    pub contrast: Option<Real>,
    pub brightness: Option<Real>,
    pub saturation: Option<Real>,
    pub gamma: Option<Real>,
}

/// A filter applied to a source.
pub struct Filter {
    pub id: String,
    pub settings: FilterSettings,
}

/// What is common to every scene item.
pub struct BaseItem {
    pub id: String,
    pub name: String,
    pub visible: bool,
    pub pos: Pos,
    pub scale: Scale,
    pub rot: Real,
    pub bounds_type: i64,
    pub bounds: Bounds,
    pub filters: Vec<Filter>,
    /// OBS item-level alignment: bitmask, left=1, right=2, top=4, bottom=8.
    /// 5 = top-left (default). Determines what point of the item pos.x/y refers to.
    pub item_align: i64,
}

/// One item of a scene.
pub enum SceneItem {
    Image { base: BaseItem, file: String },
    Video { base: BaseItem, file: String, looping: bool, speed_percent: Real },
    Gif { base: BaseItem, file: String },
    Audio { base: BaseItem, file: String },
    Text {
        base: BaseItem,
        text: String,
        font_face: String,
        font_size: Real,
        font_bold: bool,
        font_italic: bool,
        color: Option<i64>,
        opacity: Real,
        bk_color: Option<i64>,
        bk_opacity: Real,
        outline: bool,
        outline_size: i64,
        outline_color: Option<i64>,
        text_align: String,
        drop_shadow: bool,
        custom_width: i64,
        vertical: bool,
    },
    Browser { base: BaseItem, url: String, width: Real, height: Real },
    Color { base: BaseItem, color: Option<i64>, width: Real, height: Real },
    Group { base: BaseItem, items: Vec<SceneItem> },
}

/// A parsed scene: its name, canvas, items, and the font faces its text uses
/// (each once).
pub struct SceneData {
    pub name: String,
    pub canvas: Canvas,
    pub items: Vec<SceneItem>,
    pub fonts: Vec<String>,
}

// ─── Mathematical views ──────────────────────────────────────────────────────

pub struct FilterSettingsView {
    pub similarity: Option<Real>,
    pub key_color_type: Option<Seq<char>>,
    pub custom_color: Option<i64>,
    pub color: Option<i64>,
    pub contrast: Option<Real>,
    pub brightness: Option<Real>,
    pub saturation: Option<Real>,
    pub gamma: Option<Real>,
}

pub struct FilterView {
    pub id: Seq<char>,
    pub settings: FilterSettingsView,
}

pub struct BaseItemView {
    pub id: Seq<char>,
    pub name: Seq<char>,
    pub visible: bool,
    pub pos: Pos,
    pub scale: Scale,
    pub rot: Real,
    pub bounds_type: i64,
    pub bounds: Bounds,
    pub filters: Seq<FilterView>,
    pub item_align: i64,
}

pub enum SceneItemView {
    Image { base: BaseItemView, file: Seq<char> },
    Video { base: BaseItemView, file: Seq<char>, looping: bool, speed_percent: Real },
    Gif { base: BaseItemView, file: Seq<char> },
    Audio { base: BaseItemView, file: Seq<char> },
    Text {
        base: BaseItemView,
        text: Seq<char>,
        font_face: Seq<char>,
        font_size: Real,
        font_bold: bool,
        font_italic: bool,
        color: Option<i64>,
        opacity: Real,
        bk_color: Option<i64>,
        bk_opacity: Real,
        outline: bool,
        outline_size: i64,
        outline_color: Option<i64>,
        text_align: Seq<char>,
        drop_shadow: bool,
        custom_width: i64,
        vertical: bool,
    },
    Browser { base: BaseItemView, url: Seq<char>, width: Real, height: Real },
    Color { base: BaseItemView, color: Option<i64>, width: Real, height: Real },
    Group { base: BaseItemView, items: Seq<SceneItemView> },
}

pub open spec fn opt_string_view(o: Option<String>) -> Option<Seq<char>> {
    match o {
        Some(s) => Some(s@),
        None => None,
    }
}

impl View for FilterSettings {
    type V = FilterSettingsView;

    open spec fn view(&self) -> FilterSettingsView {
        FilterSettingsView {
            similarity: self.similarity,
            key_color_type: opt_string_view(self.key_color_type),
            custom_color: self.custom_color,
            color: self.color,
            contrast: self.contrast,
            brightness: self.brightness,
            saturation: self.saturation,
            gamma: self.gamma,
        }
    }
}

impl View for Filter {
    type V = FilterView;

    open spec fn view(&self) -> FilterView {
        FilterView { id: self.id@, settings: self.settings@ }
    }
}

pub open spec fn filter_views(s: Seq<Filter>) -> Seq<FilterView> {
    s.map_values(|f: Filter| f@)
}

impl View for BaseItem {
    type V = BaseItemView;

    open spec fn view(&self) -> BaseItemView {
        BaseItemView {
            id: self.id@,
            name: self.name@,
            visible: self.visible,
            pos: self.pos,
            scale: self.scale,
            rot: self.rot,
            bounds_type: self.bounds_type,
            bounds: self.bounds,
            filters: filter_views(self.filters@),
            item_align: self.item_align,
        }
    }
}

/// The view of one scene item.
pub open spec fn item_view(item: SceneItem) -> SceneItemView
    decreases item,
{
    match item {
        SceneItem::Image { base, file } => SceneItemView::Image { base: base@, file: file@ },
        SceneItem::Video { base, file, looping, speed_percent } => SceneItemView::Video {
            base: base@,
            file: file@,
            looping,
            speed_percent,
        },
        SceneItem::Gif { base, file } => SceneItemView::Gif { base: base@, file: file@ },
        SceneItem::Audio { base, file } => SceneItemView::Audio { base: base@, file: file@ },
        SceneItem::Text {
            base,
            text,
            font_face,
            font_size,
            font_bold,
            font_italic,
            color,
            opacity,
            bk_color,
            bk_opacity,
            outline,
            outline_size,
            outline_color,
            text_align,
            drop_shadow,
            custom_width,
            vertical,
        } => SceneItemView::Text {
            base: base@,
            text: text@,
            font_face: font_face@,
            font_size,
            font_bold,
            font_italic,
            color,
            opacity,
            bk_color,
            bk_opacity,
            outline,
            outline_size,
            outline_color,
            text_align: text_align@,
            drop_shadow,
            custom_width,
            vertical,
        },
        SceneItem::Browser { base, url, width, height } => SceneItemView::Browser {
            base: base@,
            url: url@,
            width,
            height,
        },
        SceneItem::Color { base, color, width, height } => SceneItemView::Color {
            base: base@,
            color,
            width,
            height,
        },
        SceneItem::Group { base, items } => SceneItemView::Group {
            base: base@,
            items: items_view(items@),
        },
    }
}

/// The views of a list of scene items.
pub open spec fn items_view(s: Seq<SceneItem>) -> Seq<SceneItemView>
    decreases s,
{
    if s.len() == 0 {
        seq![]
    } else {
        items_view(s.drop_last()).push(item_view(s.last()))
    }
}

impl View for SceneItem {
    type V = SceneItemView;

    open spec fn view(&self) -> SceneItemView {
        item_view(*self)
    }
}


/// The view of a list with one more item.
pub proof fn lemma_items_view_push(s: Seq<SceneItem>, x: SceneItem)
    ensures
        items_view(s.push(x)) == items_view(s).push(item_view(x)),
{
    assert(s.push(x).drop_last() =~= s);
}

/// The view of a list of items has the view of each item at its index.
pub proof fn lemma_items_view_index(s: Seq<SceneItem>, i: int)
    requires
        0 <= i < s.len(),
    ensures
        items_view(s).len() == s.len(),
        items_view(s)[i] == item_view(s[i]),
    decreases s.len(),
{
    lemma_items_view_len(s);
    if i < s.len() - 1 {
        lemma_items_view_index(s.drop_last(), i);
    }
}

/// The view of a list of items is as long as the list.
pub proof fn lemma_items_view_len(s: Seq<SceneItem>)
    ensures
        items_view(s).len() == s.len(),
    decreases s.len(),
{
    if s.len() > 0 {
        lemma_items_view_len(s.drop_last());
    }
}

// ─── Reading the collection ──────────────────────────────────────────────────

/// `o`'s value, or `d` when it has none.
pub open spec fn opt_or<T>(o: Option<T>, d: T) -> T {
    match o {
        Some(v) => v,
        None => d,
    }
}

/// A number read as a double, or the double with bit pattern `d` when absent.
pub open spec fn real_or(o: Option<u64>, d: u64) -> Real {
    Real { bits: opt_or(o, d) }
}

/// `v` as a double, when it is a number.
pub open spec fn j_real(v: Option<JsonValue>) -> Option<Real> {
    match j_f64(v) {
        Some(b) => Some(Real { bits: b }),
        None => None,
    }
}

/// Member `key` of the object `v`.
pub open spec fn at(v: JsonValue, key: Seq<char>) -> Option<JsonValue> {
    j_field(Some(v), key)
}

/// The index of the last element of `s`, among the first `i`, whose member
/// `key` is the string `val`.
pub open spec fn last_with(s: Seq<JsonValue>, key: Seq<char>, val: Seq<char>, i: int) -> Option<int>
    decreases i,
{
    if i <= 0 || i > s.len() {
        None
    } else if j_str(at(s[i - 1], key)) == Some(val) {
        Some(i - 1)
    } else {
        last_with(s, key, val, i - 1)
    }
}

/// The last element of `s` whose member `key` is the string `val`.
pub open spec fn find_in(s: Seq<JsonValue>, key: Seq<char>, val: Seq<char>) -> Option<JsonValue> {
    match last_with(s, key, val, s.len() as int) {
        Some(i) => Some(s[i]),
        None => None,
    }
}

/// The source an item refers to: by uuid first, then by name; among sources
/// and groups, a later entry stands in for an earlier one with the same key,
/// and groups come after sources.
pub open spec fn lookup_source(
    sources: Seq<JsonValue>,
    groups: Seq<JsonValue>,
    uuid: Seq<char>,
    name: Seq<char>,
) -> Option<JsonValue> {
    match find_in(groups, "uuid"@, uuid) {
        Some(v) => Some(v),
        None => match find_in(sources, "uuid"@, uuid) {
            Some(v) => Some(v),
            None => match find_in(groups, "name"@, name) {
                Some(v) => Some(v),
                None => find_in(sources, "name"@, name),
            },
        },
    }
}

fn find_in_exec<'a>(s: &'a Vec<JsonValue>, key: &str, val: &str) -> (r: Option<&'a JsonValue>)
    ensures
        deref_opt(r) == find_in(s@, key@, val@),
{
    let mut i: usize = s.len();
    while i > 0
        invariant
            i <= s.len(),
            last_with(s@, key@, val@, s@.len() as int) == last_with(s@, key@, val@, i as int),
        decreases i,
    {
        match as_str(field(Some(&s[i - 1]), key)) {
            Some(v) => {
                if str_eq(v, val) {
                    assert(last_with(s@, key@, val@, i as int) == Some(i - 1));
                    return Some(&s[i - 1]);
                }
            },
            None => {},
        }
        i = i - 1;
    }
    None
}

fn lookup_source_exec<'a>(
    sources: &'a Vec<JsonValue>,
    groups: &'a Vec<JsonValue>,
    uuid: &str,
    name: &str,
) -> (r: Option<&'a JsonValue>)
    ensures
        deref_opt(r) == lookup_source(sources@, groups@, uuid@, name@),
{
    if let Some(v) = find_in_exec(groups, "uuid", uuid) {
        return Some(v);
    }
    if let Some(v) = find_in_exec(sources, "uuid", uuid) {
        return Some(v);
    }
    if let Some(v) = find_in_exec(groups, "name", name) {
        return Some(v);
    }
    find_in_exec(sources, "name", name)
}

fn str_or<'a>(o: Option<&'a str>, d: &'a str) -> (r: &'a str)
    ensures
        r@ == match o {
            Some(s) => s@,
            None => d@,
        },
{
    match o {
        Some(s) => s,
        None => d,
    }
}

fn real_or_exec(o: Option<u64>, d: u64) -> (r: Real)
    ensures
        r == real_or(o, d),
{
    match o {
        Some(b) => Real { bits: b },
        None => Real { bits: d },
    }
}

fn opt_real(o: Option<u64>) -> (r: Option<Real>)
    ensures
        r == match o {
            Some(b) => Some(Real { bits: b }),
            None => None::<Real>,
        },
{
    match o {
        Some(b) => Some(Real { bits: b }),
        None => None,
    }
}

fn opt_owned(o: Option<&str>) -> (r: Option<String>)
    ensures
        opt_string_view(r) == match o {
            Some(s) => Some(s@),
            None => None::<Seq<char>>,
        },
{
    match o {
        Some(s) => Some(s.to_owned()),
        None => None,
    }
}

/// The filter that a filter entry of a source describes.
pub open spec fn spec_filter(f: JsonValue) -> FilterView {
    let s = at(f, "settings"@);
    FilterView {
        id: opt_or(j_str(at(f, "id"@)), ""@),
        settings: FilterSettingsView {
            similarity: j_real(j_field(s, "similarity"@)),
            key_color_type: j_str(j_field(s, "key_color_type"@)),
            custom_color: j_i64(j_field(s, "custom_color"@)),
            color: j_i64(j_field(s, "color"@)),
            contrast: j_real(j_field(s, "contrast"@)),
            brightness: j_real(j_field(s, "brightness"@)),
            saturation: j_real(j_field(s, "saturation"@)),
            gamma: j_real(j_field(s, "gamma"@)),
        },
    }
}

/// The filters of a source, in order.
pub open spec fn spec_filters(source: JsonValue) -> Seq<FilterView> {
    opt_or(j_array(at(source, "filters"@)), seq![]).map_values(|f: JsonValue| spec_filter(f))
}

fn parse_filter(f: &JsonValue) -> (r: Filter)
    ensures
        r@ == spec_filter(*f),
{
    let s = field(Some(f), "settings");
    Filter {
        id: str_or(as_str(field(Some(f), "id")), "").to_owned(),
        settings: FilterSettings {
            similarity: opt_real(as_f64_bits(field(s, "similarity"))),
            key_color_type: opt_owned(as_str(field(s, "key_color_type"))),
            custom_color: as_i64(field(s, "custom_color")),
            color: as_i64(field(s, "color")),
            contrast: opt_real(as_f64_bits(field(s, "contrast"))),
            brightness: opt_real(as_f64_bits(field(s, "brightness"))),
            saturation: opt_real(as_f64_bits(field(s, "saturation"))),
            gamma: opt_real(as_f64_bits(field(s, "gamma"))),
        },
    }
}

fn parse_filters(source: &JsonValue) -> (r: Vec<Filter>)
    ensures
        filter_views(r@) == spec_filters(*source),
{
    let mut out: Vec<Filter> = Vec::new();
    match as_array(field(Some(source), "filters")) {
        Some(arr) => {
            let mut i: usize = 0;
            while i < arr.len()
                invariant
                    i <= arr.len(),
                    arr@ == j_array(at(*source, "filters"@))->0,
                    filter_views(out@) =~= arr@.take(i as int).map_values(
                        |f: JsonValue| spec_filter(f),
                    ),
                decreases arr.len() - i,
            {
                let f = parse_filter(&arr[i]);
                let ghost old_out = out@;
                out.push(f);
                assert(filter_views(out@) =~= filter_views(old_out).push(f@));
                assert(arr@.take(i + 1) =~= arr@.take(i as int).push(arr@[i as int]));
                i = i + 1;
            }
            assert(arr@.take(arr.len() as int) =~= arr@);
        },
        None => {},
    }
    out
}

/// What is common to an item: read from the scene entry `item`, and the
/// filters of the `source` it shows.
pub open spec fn spec_base(item: JsonValue, source: JsonValue) -> BaseItemView {
    let vis = at(item, "visible"@);
    BaseItemView {
        id: "item-"@ + int_decimal(opt_or(j_i64(at(item, "id"@)), 0) as int),
        name: spec_fix_mojibake(opt_or(j_str(at(item, "name"@)), ""@)),
        visible: opt_or(j_bool(vis), true) && opt_or(j_i64(vis), 1i64) != 0,
        pos: Pos {
            x: real_or(j_f64(j_field(at(item, "pos"@), "x"@)), REAL_ZERO_BITS),
            y: real_or(j_f64(j_field(at(item, "pos"@), "y"@)), REAL_ZERO_BITS),
        },
        scale: Scale {
            x: real_or(j_f64(j_field(at(item, "scale"@), "x"@)), REAL_ONE_BITS),
            y: real_or(j_f64(j_field(at(item, "scale"@), "y"@)), REAL_ONE_BITS),
        },
        rot: real_or(j_f64(at(item, "rot"@)), REAL_ZERO_BITS),
        bounds_type: opt_or(j_i64(at(item, "bounds_type"@)), 0),
        bounds: Bounds {
            x: real_or(j_f64(j_field(at(item, "bounds"@), "x"@)), REAL_ZERO_BITS),
            y: real_or(j_f64(j_field(at(item, "bounds"@), "y"@)), REAL_ZERO_BITS),
        },
        filters: spec_filters(source),
        item_align: opt_or(j_i64(at(item, "align"@)), 5),
    }
}

fn parse_base(item: &JsonValue, source: &JsonValue) -> (r: BaseItem)
    ensures
        r@ == spec_base(*item, *source),
{
    let it = Some(item);
    let vis = field(it, "visible");
    let num = match as_i64(field(it, "id")) {
        Some(n) => n,
        None => 0,
    };
    let mut id = String::from_str("item-");
    let digits = i64_to_decimal(num);
    id.append(digits.as_str());
    let visible = (match as_bool(vis) {
        Some(b) => b,
        None => true,
    }) && (match as_i64(vis) {
        Some(n) => n,
        None => 1,
    }) != 0;
    BaseItem {
        id,
        name: fix_mojibake(str_or(as_str(field(it, "name")), "")),
        visible,
        pos: Pos {
            x: real_or_exec(as_f64_bits(field(field(it, "pos"), "x")), REAL_ZERO_BITS),
            y: real_or_exec(as_f64_bits(field(field(it, "pos"), "y")), REAL_ZERO_BITS),
        },
        scale: Scale {
            x: real_or_exec(as_f64_bits(field(field(it, "scale"), "x")), REAL_ONE_BITS),
            y: real_or_exec(as_f64_bits(field(field(it, "scale"), "y")), REAL_ONE_BITS),
        },
        rot: real_or_exec(as_f64_bits(field(it, "rot")), REAL_ZERO_BITS),
        bounds_type: match as_i64(field(it, "bounds_type")) {
            Some(n) => n,
            None => 0,
        },
        bounds: Bounds {
            x: real_or_exec(as_f64_bits(field(field(it, "bounds"), "x")), REAL_ZERO_BITS),
            y: real_or_exec(as_f64_bits(field(field(it, "bounds"), "y")), REAL_ZERO_BITS),
        },
        filters: parse_filters(source),
        item_align: match as_i64(field(it, "align")) {
            Some(n) => n,
            None => 5,
        },
    }
}


/// How a media file plays, by its lower-cased extension.
#[derive(Clone, Copy, Debug, PartialEq, Eq, Structural)]
pub enum MediaKind {
    Gif,
    Audio,
    Video,
}

/// `gif` is an animated image, the usual audio extensions are sound, anything
/// else is video.
pub open spec fn spec_media_kind(ext: Seq<char>) -> MediaKind {
    if ext == "gif"@ {
        MediaKind::Gif
    } else if ext == "mp3"@ || ext == "wav"@ || ext == "ogg"@ || ext == "flac"@ || ext == "aac"@ {
        MediaKind::Audio
    } else {
        MediaKind::Video
    }
}

/// How a media file with this (lower-cased) extension plays.
pub fn media_kind(ext: &str) -> (r: MediaKind)
    ensures
        r == spec_media_kind(ext@),
{
    if str_eq(ext, "gif") {
        MediaKind::Gif
    } else if str_eq(ext, "mp3") || str_eq(ext, "wav") || str_eq(ext, "ogg") || str_eq(ext, "flac")
        || str_eq(ext, "aac") {
        MediaKind::Audio
    } else {
        MediaKind::Video
    }
}

/// The source ids of text sources.
pub open spec fn is_text_source(id: Seq<char>) -> bool {
    id == "text_gdiplus"@ || id == "text_gdiplus_v2"@ || id == "text_gdiplus_v3"@ || id
        == "text_ft2_source"@
}

/// The item an `ffmpeg_source` shows: a GIF, a sound or a video, by the
/// extension of its file.
pub open spec fn spec_media_item(base: BaseItemView, s: Option<JsonValue>) -> SceneItemView {
    let file = match j_str(j_field(s, "local_file"@)) {
        Some(f) => f,
        None => opt_or(j_str(j_field(s, "input"@)), ""@),
    };
    match spec_media_kind(spec_lowercase(after_last(file, '.'))) {
        MediaKind::Gif => SceneItemView::Gif { base, file },
        MediaKind::Audio => SceneItemView::Audio { base, file },
        MediaKind::Video => SceneItemView::Video {
            base,
            file,
            looping: opt_or(j_bool(j_field(s, "looping"@)), true),
            speed_percent: real_or(j_f64(j_field(s, "speed_percent"@)), REAL_HUNDRED_BITS),
        },
    }
}

/// The item a text source shows, read from its settings `s`.
pub open spec fn spec_text_item(base: BaseItemView, s: Option<JsonValue>) -> SceneItemView {
    let font = j_field(s, "font"@);
    let flags = opt_or(j_i64(j_field(font, "flags"@)), 0i64);
    SceneItemView::Text {
        base,
        text: spec_fix_mojibake(opt_or(j_str(j_field(s, "text"@)), ""@)),
        font_face: opt_or(j_str(j_field(font, "face"@)), "Arial"@),
        font_size: real_or(j_f64(j_field(font, "size"@)), REAL_THIRTY_BITS),
        font_bold: (flags & 1) != 0,
        font_italic: (flags & 2) != 0,
        color: j_i64(j_field(s, "color"@)),
        opacity: real_or(j_f64(j_field(s, "opacity"@)), REAL_HUNDRED_BITS),
        bk_color: j_i64(j_field(s, "bk_color"@)),
        bk_opacity: real_or(j_f64(j_field(s, "bk_opacity"@)), REAL_ZERO_BITS),
        outline: opt_or(j_bool(j_field(s, "outline"@)), false),
        outline_size: opt_or(j_i64(j_field(s, "outline_size"@)), 3i64),
        outline_color: j_i64(j_field(s, "outline_color"@)),
        text_align: opt_or(j_str(j_field(s, "align"@)), "left"@),
        drop_shadow: opt_or(j_bool(j_field(s, "drop_shadow"@)), false),
        custom_width: opt_or(j_i64(j_field(s, "custom_width"@)), 0i64),
        vertical: opt_or(j_bool(j_field(s, "vertical"@)), false),
    }
}

/// The item a colour source shows; its size defaults to the canvas.
pub open spec fn spec_color_item(base: BaseItemView, s: Option<JsonValue>, canvas: Canvas) -> SceneItemView {
    SceneItemView::Color {
        base,
        color: j_i64(j_field(s, "color"@)),
        width: real_or(j_f64(j_field(s, "width"@)), canvas.x.bits),
        height: real_or(j_f64(j_field(s, "height"@)), canvas.y.bits),
    }
}

/// The item a browser source shows; its size defaults to the canvas.
pub open spec fn spec_browser_item(base: BaseItemView, s: Option<JsonValue>, canvas: Canvas) -> SceneItemView {
    SceneItemView::Browser {
        base,
        url: spec_trim(opt_or(j_str(j_field(s, "url"@)), ""@)),
        width: real_or(j_f64(j_field(s, "width"@)), canvas.x.bits),
        height: real_or(j_f64(j_field(s, "height"@)), canvas.y.bits),
    }
}

/// The scene item that the scene entry `item`, showing `source`, becomes:
/// `Some(None)` when the source shows nothing, `None` when nested groups or
/// scenes go deeper than `fuel` levels.
pub open spec fn spec_parse_item(
    sources: Seq<JsonValue>,
    groups: Seq<JsonValue>,
    canvas: Canvas,
    only_visible: bool,
    item: JsonValue,
    source: JsonValue,
    fuel: nat,
) -> Option<Option<SceneItemView>>
    decreases fuel, 0nat,
{
    let base = spec_base(item, source);
    let sid = opt_or(j_str(at(source, "id"@)), ""@);
    let s = at(source, "settings"@);
    if sid == "image_source"@ {
        Some(Some(SceneItemView::Image { base, file: opt_or(j_str(j_field(s, "file"@)), ""@) }))
    } else if sid == "ffmpeg_source"@ {
        Some(Some(spec_media_item(base, s)))
    } else if is_text_source(sid) {
        Some(Some(spec_text_item(base, s)))
    } else if sid == "color_source"@ || sid == "color_source_v3"@ {
        Some(Some(spec_color_item(base, s, canvas)))
    } else if sid == "browser_source"@ {
        Some(Some(spec_browser_item(base, s, canvas)))
    } else if sid == "group"@ || (sid == "scene"@ && j_array(j_field(s, "items"@)) is Some) {
        if fuel == 0 {
            None
        } else {
            let raw = opt_or(j_array(j_field(s, "items"@)), seq![]);
            match spec_parse_items(
                sources,
                groups,
                canvas,
                only_visible,
                raw,
                seq![],
                raw.len(),
                (fuel - 1) as nat,
            ) {
                Some(items) => Some(Some(SceneItemView::Group { base, items })),
                None => None,
            }
        }
    } else {
        Some(None)
    }
}

/// Whether a scene entry is hidden in OBS: `visible` is `false` or `0`.
pub open spec fn is_hidden(item: JsonValue) -> bool {
    j_bool(at(item, "visible"@)) == Some(false) || j_i64(at(item, "visible"@)) == Some(0i64)
}

/// The `source_uuid` of a scene entry, or "" when it has none.
pub open spec fn entry_uuid(item: JsonValue) -> Seq<char> {
    opt_or(j_str(at(item, "source_uuid"@)), ""@)
}

/// The `name` of a scene entry, or "" when it has none.
pub open spec fn entry_name(item: JsonValue) -> Seq<char> {
    opt_or(j_str(at(item, "name"@)), ""@)
}

/// The scene items that the first `n` entries of `raw` become, in order:
/// entries whose source uuid is in `exclude`, hidden entries when
/// `only_visible`, entries whose source is unknown and sources that show
/// nothing are left out. `None` when nesting goes deeper than `fuel` levels.
pub open spec fn spec_parse_items(
    sources: Seq<JsonValue>,
    groups: Seq<JsonValue>,
    canvas: Canvas,
    only_visible: bool,
    raw: Seq<JsonValue>,
    exclude: Seq<Seq<char>>,
    n: nat,
    fuel: nat,
) -> Option<Seq<SceneItemView>>
    decreases fuel, n,
{
    if n == 0 || n > raw.len() {
        Some(seq![])
    } else {
        match spec_parse_items(
            sources,
            groups,
            canvas,
            only_visible,
            raw,
            exclude,
            (n - 1) as nat,
            fuel,
        ) {
            None => None,
            Some(prev) => {
                let item = raw[n - 1];
                if exclude.contains(entry_uuid(item)) || (only_visible && is_hidden(item)) {
                    Some(prev)
                } else {
                    match lookup_source(sources, groups, entry_uuid(item), entry_name(item)) {
                        None => Some(prev),
                        Some(src) => match spec_parse_item(
                            sources,
                            groups,
                            canvas,
                            only_visible,
                            item,
                            src,
                            fuel,
                        ) {
                            None => None,
                            Some(None) => Some(prev),
                            Some(Some(it)) => Some(prev.push(it)),
                        },
                    }
                }
            },
        }
    }
}

/// The view of a parse outcome for one entry.
pub open spec fn outcome_view(o: Option<Option<SceneItem>>) -> Option<Option<SceneItemView>> {
    match o {
        Some(Some(it)) => Some(Some(it@)),
        Some(None) => Some(None),
        None => None,
    }
}

fn contains_string(v: &Vec<String>, s: &str) -> (r: bool)
    ensures
        r == string_views(v@).contains(s@),
{
    let mut i: usize = 0;
    while i < v.len()
        invariant
            i <= v.len(),
            forall|j: int| 0 <= j < i ==> v@[j]@ != s@,
        decreases v.len() - i,
    {
        if str_eq(v[i].as_str(), s) {
            assert(string_views(v@)[i as int] == s@);
            return true;
        }
        i = i + 1;
    }
    assert forall|j: int| 0 <= j < string_views(v@).len() implies string_views(v@)[j] != s@ by {}
    false
}

fn parse_media_item(base: BaseItem, s: Option<&JsonValue>) -> (r: SceneItem)
    ensures
        r@ == spec_media_item(base@, deref_opt(s)),
{
    let file_str = match as_str(field(s, "local_file")) {
        Some(f) => f,
        None => str_or(as_str(field(s, "input")), ""),
    };
    let file = file_str.to_owned();
    let ext = text_after_last(file_str, '.');
    let ext_lower = to_lowercase(ext.as_str());
    match media_kind(ext_lower.as_str()) {
        MediaKind::Gif => SceneItem::Gif { base, file },
        MediaKind::Audio => SceneItem::Audio { base, file },
        MediaKind::Video => {
            let looping = match as_bool(field(s, "looping")) {
                Some(b) => b,
                None => true,
            };
            let speed_percent = real_or_exec(
                as_f64_bits(field(s, "speed_percent")),
                REAL_HUNDRED_BITS,
            );
            SceneItem::Video { base, file, looping, speed_percent }
        },
    }
}

fn bool_or(o: Option<bool>, d: bool) -> (r: bool)
    ensures
        r == opt_or(o, d),
{
    match o {
        Some(b) => b,
        None => d,
    }
}

fn i64_or(o: Option<i64>, d: i64) -> (r: i64)
    ensures
        r == opt_or(o, d),
{
    match o {
        Some(n) => n,
        None => d,
    }
}

fn parse_text_item(base: BaseItem, s: Option<&JsonValue>) -> (r: SceneItem)
    ensures
        r@ == spec_text_item(base@, deref_opt(s)),
{
    let font = field(s, "font");
    let flags = i64_or(as_i64(field(font, "flags")), 0);
    SceneItem::Text {
        base,
        text: fix_mojibake(str_or(as_str(field(s, "text")), "")),
        font_face: str_or(as_str(field(font, "face")), "Arial").to_owned(),
        font_size: real_or_exec(as_f64_bits(field(font, "size")), REAL_THIRTY_BITS),
        font_bold: (flags & 1) != 0,
        font_italic: (flags & 2) != 0,
        color: as_i64(field(s, "color")),
        opacity: real_or_exec(as_f64_bits(field(s, "opacity")), REAL_HUNDRED_BITS),
        bk_color: as_i64(field(s, "bk_color")),
        bk_opacity: real_or_exec(as_f64_bits(field(s, "bk_opacity")), REAL_ZERO_BITS),
        outline: bool_or(as_bool(field(s, "outline")), false),
        outline_size: i64_or(as_i64(field(s, "outline_size")), 3),
        outline_color: as_i64(field(s, "outline_color")),
        text_align: str_or(as_str(field(s, "align")), "left").to_owned(),
        drop_shadow: bool_or(as_bool(field(s, "drop_shadow")), false),
        custom_width: i64_or(as_i64(field(s, "custom_width")), 0),
        vertical: bool_or(as_bool(field(s, "vertical")), false),
    }
}

fn parse_color_item(base: BaseItem, s: Option<&JsonValue>, canvas: Canvas) -> (r: SceneItem)
    ensures
        r@ == spec_color_item(base@, deref_opt(s), canvas),
{
    SceneItem::Color {
        base,
        color: as_i64(field(s, "color")),
        width: real_or_exec(as_f64_bits(field(s, "width")), canvas.x.bits),
        height: real_or_exec(as_f64_bits(field(s, "height")), canvas.y.bits),
    }
}

fn parse_browser_item(base: BaseItem, s: Option<&JsonValue>, canvas: Canvas) -> (r: SceneItem)
    ensures
        r@ == spec_browser_item(base@, deref_opt(s), canvas),
{
    let url = trim(str_or(as_str(field(s, "url")), ""));
    SceneItem::Browser {
        base,
        url,
        width: real_or_exec(as_f64_bits(field(s, "width")), canvas.x.bits),
        height: real_or_exec(as_f64_bits(field(s, "height")), canvas.y.bits),
    }
}

fn parse_item(
    sources: &Vec<JsonValue>,
    groups: &Vec<JsonValue>,
    canvas: Canvas,
    only_visible: bool,
    item: &JsonValue,
    source: &JsonValue,
    fuel: usize,
) -> (r: Option<Option<SceneItem>>)
    ensures
        outcome_view(r) == spec_parse_item(
            sources@,
            groups@,
            canvas,
            only_visible,
            *item,
            *source,
            fuel as nat,
        ),
    decreases fuel, 0nat,
{
    let base = parse_base(item, source);
    let sid = str_or(as_str(field(Some(source), "id")), "");
    let s = field(Some(source), "settings");
    if str_eq(sid, "image_source") {
        let file = str_or(as_str(field(s, "file")), "").to_owned();
        Some(Some(SceneItem::Image { base, file }))
    } else if str_eq(sid, "ffmpeg_source") {
        Some(Some(parse_media_item(base, s)))
    } else if str_eq(sid, "text_gdiplus") || str_eq(sid, "text_gdiplus_v2") || str_eq(
        sid,
        "text_gdiplus_v3",
    ) || str_eq(sid, "text_ft2_source") {
        Some(Some(parse_text_item(base, s)))
    } else if str_eq(sid, "color_source") || str_eq(sid, "color_source_v3") {
        Some(Some(parse_color_item(base, s, canvas)))
    } else if str_eq(sid, "browser_source") {
        Some(Some(parse_browser_item(base, s, canvas)))
    } else if str_eq(sid, "group") || (str_eq(sid, "scene") && as_array(field(s, "items")).is_some()) {
        if fuel == 0 {
            None
        } else {
            let empty_raw: Vec<JsonValue> = Vec::new();
            let no_exclusions: Vec<String> = Vec::new();
            let raw = match as_array(field(s, "items")) {
                Some(a) => a,
                None => &empty_raw,
            };
            assert(string_views(no_exclusions@) =~= seq![]);
            match parse_items(
                sources,
                groups,
                canvas,
                only_visible,
                raw,
                &no_exclusions,
                fuel - 1,
            ) {
                Some(items) => Some(Some(SceneItem::Group { base, items })),
                None => None,
            }
        }
    } else {
        Some(None)
    }
}

/// Once nesting runs out for the first entries, it runs out for more entries too.
proof fn lemma_parse_items_none_persists(
    sources: Seq<JsonValue>,
    groups: Seq<JsonValue>,
    canvas: Canvas,
    only_visible: bool,
    raw: Seq<JsonValue>,
    exclude: Seq<Seq<char>>,
    k: nat,
    n: nat,
    fuel: nat,
)
    requires
        k <= n <= raw.len(),
        spec_parse_items(sources, groups, canvas, only_visible, raw, exclude, k, fuel) is None,
    ensures
        spec_parse_items(sources, groups, canvas, only_visible, raw, exclude, n, fuel) is None,
    decreases n,
{
    if n > k {
        lemma_parse_items_none_persists(
            sources,
            groups,
            canvas,
            only_visible,
            raw,
            exclude,
            k,
            (n - 1) as nat,
            fuel,
        );
    }
}

fn parse_items(
    sources: &Vec<JsonValue>,
    groups: &Vec<JsonValue>,
    canvas: Canvas,
    only_visible: bool,
    raw: &Vec<JsonValue>,
    exclude: &Vec<String>,
    fuel: usize,
) -> (r: Option<Vec<SceneItem>>)
    ensures
        match r {
            Some(v) => spec_parse_items(
                sources@,
                groups@,
                canvas,
                only_visible,
                raw@,
                string_views(exclude@),
                raw@.len(),
                fuel as nat,
            ) == Some(items_view(v@)),
            None => spec_parse_items(
                sources@,
                groups@,
                canvas,
                only_visible,
                raw@,
                string_views(exclude@),
                raw@.len(),
                fuel as nat,
            ) is None,
        },
    decreases fuel, 1nat,
{
    let mut out: Vec<SceneItem> = Vec::new();
    let mut i: usize = 0;
    while i < raw.len()
        invariant
            i <= raw.len(),
            spec_parse_items(
                sources@,
                groups@,
                canvas,
                only_visible,
                raw@,
                string_views(exclude@),
                i as nat,
                fuel as nat,
            ) == Some(items_view(out@)),
        decreases raw.len() - i,
    {
        let item = &raw[i];
        let it = Some(item);
        let uuid = str_or(as_str(field(it, "source_uuid")), "");
        let name = str_or(as_str(field(it, "name")), "");
        let vis = field(it, "visible");
        let hidden = as_bool(vis) == Some(false) || as_i64(vis) == Some(0i64);
        if contains_string(exclude, uuid) || (only_visible && hidden) {
        } else {
            match lookup_source_exec(sources, groups, uuid, name) {
                None => {},
                Some(src) => {
                    match parse_item(sources, groups, canvas, only_visible, item, src, fuel) {
                        None => {
                            proof {
                                lemma_parse_items_none_persists(
                                    sources@,
                                    groups@,
                                    canvas,
                                    only_visible,
                                    raw@,
                                    string_views(exclude@),
                                    (i + 1) as nat,
                                    raw@.len(),
                                    fuel as nat,
                                );
                            }
                            return None;
                        },
                        Some(None) => {},
                        Some(Some(parsed)) => {
                            proof {
                                lemma_items_view_push(out@, parsed);
                            }
                            out.push(parsed);
                        },
                    }
                },
            }
        }
        i = i + 1;
    }
    Some(out)
}


// ─── Scene-level parsing ─────────────────────────────────────────────────────

/// The `sources` list of a scene collection (empty when absent).
pub open spec fn spec_sources(json: JsonValue) -> Seq<JsonValue> {
    opt_or(j_array(at(json, "sources"@)), seq![])
}

/// The `groups` list of a scene collection (empty when absent).
pub open spec fn spec_groups(json: JsonValue) -> Seq<JsonValue> {
    opt_or(j_array(at(json, "groups"@)), seq![])
}

/// The canvas of a scene collection: `resolution`, 1920×1080 by default.
pub open spec fn spec_canvas(json: JsonValue) -> Canvas {
    Canvas {
        x: real_or(j_f64(j_field(at(json, "resolution"@), "x"@)), REAL_1920_BITS),
        y: real_or(j_f64(j_field(at(json, "resolution"@), "y"@)), REAL_1080_BITS),
    }
}

/// How deep groups and nested scenes are followed: one level more than there
/// are sources and groups, so that only a cycle of references runs out
/// (`law_nesting_fuel_suffices`).
pub open spec fn nesting_fuel(json: JsonValue) -> nat {
    if spec_sources(json).len() + spec_groups(json).len() < usize::MAX {
        spec_sources(json).len() + spec_groups(json).len() + 1
    } else {
        usize::MAX as nat
    }
}

/// The source is a scene.
pub open spec fn is_scene_source(src: JsonValue) -> bool {
    j_str(at(src, "id"@)) == Some("scene"@)
}

/// The source is the scene called `name`, by its name as written or repaired.
pub open spec fn is_scene_called(src: JsonValue, name: Seq<char>) -> bool {
    is_scene_source(src) && (entry_name(src) == name || spec_fix_mojibake(entry_name(src)) == name)
}

/// The index of the first source, from `i` on, that is the scene `name`.
pub open spec fn scene_index_from(sources: Seq<JsonValue>, name: Seq<char>, i: int) -> Option<int>
    decreases sources.len() - i,
{
    if i < 0 || i >= sources.len() {
        None
    } else if is_scene_called(sources[i], name) {
        Some(i)
    } else {
        scene_index_from(sources, name, i + 1)
    }
}

/// The first source of the collection that is the scene `name`.
pub open spec fn find_scene(json: JsonValue, name: Seq<char>) -> Option<JsonValue> {
    match scene_index_from(spec_sources(json), name, 0) {
        Some(i) => Some(spec_sources(json)[i]),
        None => None,
    }
}

/// The (repaired) names of the scene sources among the first `n` sources.
pub open spec fn scene_names_upto(sources: Seq<JsonValue>, n: nat) -> Seq<Seq<char>>
    decreases n,
{
    if n == 0 || n > sources.len() {
        seq![]
    } else if is_scene_source(sources[n - 1]) {
        scene_names_upto(sources, (n - 1) as nat).push(spec_fix_mojibake(entry_name(sources[n - 1])))
    } else {
        scene_names_upto(sources, (n - 1) as nat)
    }
}

/// The (repaired) names of all scenes of a collection, in order.
pub open spec fn spec_scene_names(json: JsonValue) -> Seq<Seq<char>> {
    scene_names_upto(spec_sources(json), spec_sources(json).len())
}

/// The message for a scene that the collection does not hold: it lists the
/// scenes there are, one per line.
pub open spec fn not_found_message(name: Seq<char>, names: Seq<Seq<char>>) -> Seq<char> {
    "Cena \""@ + name + "\" não encontrada.\nCenas disponíveis:\n"@ + joined(
        names.map_values(|n: Seq<char>| "  • "@ + n),
        "\n"@,
    )
}

/// The string `source_uuid`s among the first `n` of `children`.
pub open spec fn child_uuids_upto(children: Seq<JsonValue>, n: nat) -> Seq<Seq<char>>
    decreases n,
{
    if n == 0 || n > children.len() {
        seq![]
    } else {
        match j_str(at(children[n - 1], "source_uuid"@)) {
            Some(u) => child_uuids_upto(children, (n - 1) as nat).push(u),
            None => child_uuids_upto(children, (n - 1) as nat),
        }
    }
}

/// The source uuids of the children of a group source (none for another source).
pub open spec fn group_children(src: JsonValue) -> Seq<Seq<char>> {
    if j_str(at(src, "id"@)) == Some("group"@) {
        match j_array(j_field(at(src, "settings"@), "items"@)) {
            Some(children) => child_uuids_upto(children, children.len()),
            None => seq![],
        }
    } else {
        seq![]
    }
}

/// The uuids of the children of the groups that the first `n` scene entries
/// show. OBS lists such children in the scene too; they are shown once, in
/// their group.
pub open spec fn group_child_uuids(
    sources: Seq<JsonValue>,
    groups: Seq<JsonValue>,
    raw: Seq<JsonValue>,
    n: nat,
) -> Seq<Seq<char>>
    decreases n,
{
    if n == 0 || n > raw.len() {
        seq![]
    } else {
        group_child_uuids(sources, groups, raw, (n - 1) as nat) + match lookup_source(
            sources,
            groups,
            entry_uuid(raw[n - 1]),
            entry_name(raw[n - 1]),
        ) {
            Some(src) => group_children(src),
            None => seq![],
        }
    }
}

/// The entries of a scene source.
pub open spec fn scene_entries(scene: JsonValue) -> Seq<JsonValue> {
    opt_or(j_array(j_field(at(scene, "settings"@), "items"@)), seq![])
}

/// The items of the scene source `scene`, or `None` when its groups and nested
/// scenes refer to each other in a cycle, so that no number of levels would
/// do (`law_nesting_fuel_suffices`).
pub open spec fn spec_scene_items(json: JsonValue, scene: JsonValue, only_visible: bool) -> Option<
    Seq<SceneItemView>,
> {
    let sources = spec_sources(json);
    let groups = spec_groups(json);
    let raw = scene_entries(scene);
    spec_parse_items(
        sources,
        groups,
        spec_canvas(json),
        only_visible,
        raw,
        group_child_uuids(sources, groups, raw, raw.len()),
        raw.len(),
        nesting_fuel(json),
    )
}

/// The scene `name` either is absent or can be parsed in finitely many steps.
pub open spec fn scene_nesting_finite(json: JsonValue, name: Seq<char>, only_visible: bool) -> bool {
    match find_scene(json, name) {
        Some(scene) => spec_scene_items(json, scene, only_visible) is Some,
        None => true,
    }
}

/// The font faces that the text items among `items` use, nested ones included.
pub open spec fn font_faces(items: Seq<SceneItemView>) -> Set<Seq<char>>
    decreases items,
{
    if items.len() == 0 {
        Set::empty()
    } else {
        font_faces(items.drop_last()).union(item_font_faces(items.last()))
    }
}

/// The font faces that one item uses.
pub open spec fn item_font_faces(item: SceneItemView) -> Set<Seq<char>>
    decreases item,
{
    match item {
        SceneItemView::Text { font_face, .. } => set![font_face],
        SceneItemView::Group { items, .. } => font_faces(items),
        _ => Set::empty(),
    }
}

impl SceneItem {
    /// The local file path of a media item, `None` for other items.
    pub fn file(&self) -> (r: Option<&str>)
        ensures
            r matches Some(f) ==> match item_view(*self) {
                SceneItemView::Image { file, .. } => f@ == file,
                SceneItemView::Video { file, .. } => f@ == file,
                SceneItemView::Gif { file, .. } => f@ == file,
                SceneItemView::Audio { file, .. } => f@ == file,
                _ => false,
            },
            r is None <==> !(item_view(*self) is Image || item_view(*self) is Video || item_view(
                *self,
            ) is Gif || item_view(*self) is Audio),
    {
        match self {
            SceneItem::Image { file, .. } => Some(file.as_str()),
            SceneItem::Video { file, .. } => Some(file.as_str()),
            SceneItem::Gif { file, .. } => Some(file.as_str()),
            SceneItem::Audio { file, .. } => Some(file.as_str()),
            _ => None,
        }
    }
}

fn scene_names_exec(sources: &Vec<JsonValue>) -> (r: Vec<String>)
    ensures
        string_views(r@) == scene_names_upto(sources@, sources@.len()),
{
    let mut out: Vec<String> = Vec::new();
    let mut i: usize = 0;
    while i < sources.len()
        invariant
            i <= sources.len(),
            string_views(out@) == scene_names_upto(sources@, i as nat),
        decreases sources.len() - i,
    {
        let src = Some(&sources[i]);
        match as_str(field(src, "id")) {
            Some(id) => {
                if str_eq(id, "scene") {
                    let n = fix_mojibake(str_or(as_str(field(src, "name")), ""));
                    let ghost old_out = out@;
                    out.push(n);
                    assert(string_views(out@) =~= string_views(old_out).push(n@));
                }
            },
            None => {},
        }
        i = i + 1;
    }
    out
}

/// The (repaired) names of the scenes of a collection, in order.
pub fn scene_names(json: &JsonValue) -> (r: Vec<String>)
    ensures
        string_views(r@) == spec_scene_names(*json),
{
    let empty: Vec<JsonValue> = Vec::new();
    let sources = match as_array(field(Some(json), "sources")) {
        Some(a) => a,
        None => &empty,
    };
    scene_names_exec(sources)
}

fn find_scene_exec<'a>(sources: &'a Vec<JsonValue>, name: &str) -> (r: Option<&'a JsonValue>)
    ensures
        deref_opt(r) == match scene_index_from(sources@, name@, 0) {
            Some(i) => Some(sources@[i]),
            None => None::<JsonValue>,
        },
{
    let mut i: usize = 0;
    while i < sources.len()
        invariant
            i <= sources.len(),
            scene_index_from(sources@, name@, 0) == scene_index_from(sources@, name@, i as int),
        decreases sources.len() - i,
    {
        let src = Some(&sources[i]);
        let is_scene = match as_str(field(src, "id")) {
            Some(id) => str_eq(id, "scene"),
            None => false,
        };
        if is_scene {
            let raw_name = str_or(as_str(field(src, "name")), "");
            let fixed = fix_mojibake(raw_name);
            if str_eq(raw_name, name) || str_eq(fixed.as_str(), name) {
                assert(scene_index_from(sources@, name@, i as int) == Some(i as int));
                return Some(&sources[i]);
            }
        }
        i = i + 1;
    }
    None
}

fn group_children_exec(src: &JsonValue, out: &mut Vec<String>)
    ensures
        string_views(final(out)@) == string_views(old(out)@) + group_children(*src),
{
    let is_group = match as_str(field(Some(src), "id")) {
        Some(id) => str_eq(id, "group"),
        None => false,
    };
    if is_group {
        match as_array(field(field(Some(src), "settings"), "items")) {
            Some(children) => {
                let ghost start = string_views(out@);
                let mut i: usize = 0;
                while i < children.len()
                    invariant
                        i <= children.len(),
                        string_views(out@) == start + child_uuids_upto(children@, i as nat),
                    decreases children.len() - i,
                {
                    match as_str(field(Some(&children[i]), "source_uuid")) {
                        Some(u) => {
                            let ghost before = out@;
                            out.push(u.to_owned());
                            assert(string_views(out@) =~= string_views(before).push(u@));
                            assert(start + child_uuids_upto(children@, (i + 1) as nat) =~= (start
                                + child_uuids_upto(children@, i as nat)).push(u@));
                        },
                        None => {},
                    }
                    i = i + 1;
                }
            },
            None => {
                assert(string_views(out@) =~= string_views(out@) + seq![]);
            },
        }
    } else {
        assert(string_views(out@) =~= string_views(out@) + seq![]);
    }
}

fn group_child_uuids_exec(
    sources: &Vec<JsonValue>,
    groups: &Vec<JsonValue>,
    raw: &Vec<JsonValue>,
) -> (r: Vec<String>)
    ensures
        string_views(r@) == group_child_uuids(sources@, groups@, raw@, raw@.len()),
{
    let mut out: Vec<String> = Vec::new();
    let mut i: usize = 0;
    while i < raw.len()
        invariant
            i <= raw.len(),
            string_views(out@) == group_child_uuids(sources@, groups@, raw@, i as nat),
        decreases raw.len() - i,
    {
        let it = Some(&raw[i]);
        let uuid = str_or(as_str(field(it, "source_uuid")), "");
        let name = str_or(as_str(field(it, "name")), "");
        match lookup_source_exec(sources, groups, uuid, name) {
            Some(src) => {
                group_children_exec(src, &mut out);
            },
            None => {
                assert(string_views(out@) =~= string_views(out@) + seq![]);
            },
        }
        i = i + 1;
    }
    out
}

fn collect_fonts_into(items: &Vec<SceneItem>, acc: &mut Vec<String>)
    requires
        string_views(old(acc)@).no_duplicates(),
    ensures
        string_views(final(acc)@).no_duplicates(),
        string_views(final(acc)@).to_set() == string_views(old(acc)@).to_set().union(
            font_faces(items_view(items@)),
        ),
    decreases items,
{
    let ghost start = string_views(acc@).to_set();
    let mut i: usize = 0;
    while i < items.len()
        invariant
            i <= items.len(),
            string_views(acc@).no_duplicates(),
            string_views(acc@).to_set() == start.union(
                font_faces(items_view(items@.take(i as int))),
            ),
        decreases items.len() - i,
    {
        let ghost prev = items_view(items@.take(i as int));
        let ghost cur = items_view(items@.take(i + 1));
        proof {
            lemma_items_view_push(items@.take(i as int), items@[i as int]);
            assert(items@.take(i as int).push(items@[i as int]) =~= items@.take(i + 1));
            assert(cur == prev.push(item_view(items@[i as int])));
            assert(cur.drop_last() =~= prev);
            assert(font_faces(cur) == font_faces(prev).union(item_font_faces(item_view(items@[i as int]))));
        }
        match &items[i] {
            SceneItem::Text { font_face, .. } => {
                let ghost before = string_views(acc@);
                if !contains_string(acc, font_face.as_str()) {
                    acc.push(font_face.clone());
                    assert(string_views(acc@) =~= before.push(font_face@));
                    proof {
                        before.lemma_push_to_set_commute(font_face@);
                        assert forall|a: int, b: int|
                            0 <= a < string_views(acc@).len() && 0 <= b < string_views(acc@).len()
                                && a != b implies string_views(acc@)[a] != string_views(acc@)[b] by {
                            if a < before.len() && b < before.len() {
                            } else if a == before.len() {
                                assert(before[b] == string_views(acc@)[b]);
                            } else {
                                assert(before[a] == string_views(acc@)[a]);
                            }
                        }
                    }
                } else {
                    assert(before.to_set().insert(font_face@) =~= before.to_set());
                }
                assert(string_views(acc@).to_set() =~= start.union(
                    font_faces(items_view(items@.take(i + 1))),
                ));
            },
            SceneItem::Group { items: children, .. } => {
                assert(decreases_to!(items => items@[i as int]));
                collect_fonts_into(children, acc);
                assert(string_views(acc@).to_set() =~= start.union(
                    font_faces(items_view(items@.take(i + 1))),
                ));
            },
            _ => {
                assert(string_views(acc@).to_set() =~= start.union(
                    font_faces(items_view(items@.take(i + 1))),
                ));
            },
        }
        i = i + 1;
    }
    assert(items@.take(items.len() as int) =~= items@);
}

/// The font faces that the text items of a scene use, each once.
pub fn collect_fonts(items: &Vec<SceneItem>) -> (r: Vec<String>)
    ensures
        string_views(r@).no_duplicates(),
        string_views(r@).to_set() == font_faces(items_view(items@)),
{
    let mut acc: Vec<String> = Vec::new();
    assert(string_views(acc@).to_set() =~= Set::empty());
    collect_fonts_into(items, &mut acc);
    assert(Set::<Seq<char>>::empty().union(font_faces(items_view(items@))) =~= font_faces(
        items_view(items@),
    ));
    acc
}


/// What parsing the scene `name` gives: the error message listing the scenes
/// there are when the collection has no such scene; otherwise the scene with
/// its canvas, its items (children of groups shown once, in their group) and
/// the font faces its text uses.
pub open spec fn scene_parsed(
    json: JsonValue,
    name: Seq<char>,
    only_visible: bool,
    res: Result<SceneData, String>,
) -> bool {
    match find_scene(json, name) {
        None => res matches Err(m) && m@ == not_found_message(name, spec_scene_names(json)),
        Some(scene) => res matches Ok(d) && d.name@ == name && d.canvas == spec_canvas(json)
            && spec_scene_items(json, scene, only_visible) == Some(items_view(d.items@))
            && string_views(d.fonts@).no_duplicates() && string_views(d.fonts@).to_set()
            == font_faces(items_view(d.items@)),
    }
}

fn not_found_message_exec(name: &str, names: &Vec<String>) -> (r: String)
    ensures
        r@ == not_found_message(name@, string_views(names@)),
{
    let ghost views = string_views(names@);
    let mut lines: Vec<String> = Vec::new();
    let mut i: usize = 0;
    while i < names.len()
        invariant
            i <= names.len(),
            views == string_views(names@),
            string_views(lines@) =~= views.take(i as int).map_values(|n: Seq<char>| "  • "@ + n),
        decreases names.len() - i,
    {
        let mut line = String::from_str("  • ");
        line.append(names[i].as_str());
        let ghost before = lines@;
        lines.push(line);
        assert(string_views(lines@) =~= string_views(before).push(line@));
        assert(views.take(i + 1) =~= views.take(i as int).push(views[i as int]));
        i = i + 1;
    }
    assert(views.take(names.len() as int) =~= views);
    let list = join(&lines, "\n");
    let mut msg = String::from_str("Cena \"");
    msg.append(name);
    msg.append("\" não encontrada.\nCenas disponíveis:\n");
    msg.append(list.as_str());
    msg
}

/// Parses the scene `scene_name` of a collection; `None` when its groups and
/// nested scenes refer to each other in a cycle, which could never be
/// finished.
pub fn try_parse_scene(json: &JsonValue, scene_name: &str, only_visible: bool) -> (r: Option<
    Result<SceneData, String>,
>)
    ensures
        r is None <==> !scene_nesting_finite(*json, scene_name@, only_visible),
        r matches Some(res) ==> scene_parsed(*json, scene_name@, only_visible, res),
{
    let root = Some(json);
    let canvas = Canvas {
        x: real_or_exec(as_f64_bits(field(field(root, "resolution"), "x")), REAL_1920_BITS),
        y: real_or_exec(as_f64_bits(field(field(root, "resolution"), "y")), REAL_1080_BITS),
    };
    let empty_sources: Vec<JsonValue> = Vec::new();
    let empty_groups: Vec<JsonValue> = Vec::new();
    let empty_items: Vec<JsonValue> = Vec::new();
    let sources = match as_array(field(root, "sources")) {
        Some(a) => a,
        None => &empty_sources,
    };
    let groups = match as_array(field(root, "groups")) {
        Some(a) => a,
        None => &empty_groups,
    };
    match find_scene_exec(sources, scene_name) {
        None => {
            let names = scene_names_exec(sources);
            Some(Err(not_found_message_exec(scene_name, &names)))
        },
        Some(scene) => {
            let raw = match as_array(field(field(Some(scene), "settings"), "items")) {
                Some(a) => a,
                None => &empty_items,
            };
            let exclude = group_child_uuids_exec(sources, groups, raw);
            let fuel: usize = if sources.len() < usize::MAX - groups.len() {
                sources.len() + groups.len() + 1
            } else {
                usize::MAX
            };
            match parse_items(sources, groups, canvas, only_visible, raw, &exclude, fuel) {
                None => None,
                Some(items) => {
                    let fonts = collect_fonts(&items);
                    Some(Ok(SceneData { name: scene_name.to_owned(), canvas, items, fonts }))
                },
            }
        },
    }
}

/// Parses the scene `scene_name` of a collection. A scene that is absent gives
/// an error that lists the scenes there are.
pub fn parse_scene(json: &JsonValue, scene_name: &str, only_visible: bool) -> (r: Result<
    SceneData,
    String,
>)
    requires
        scene_nesting_finite(*json, scene_name@, only_visible),
    ensures
        scene_parsed(*json, scene_name@, only_visible, r),
{
    match try_parse_scene(json, scene_name, only_visible) {
        Some(res) => res,
        None => {
            // Finite nesting rules this arm out.
            proof {
                assert(false);
            }
            Err(String::new())
        },
    }
}

/// The scenes of a collection, or the message that it has none.
pub fn list_scenes(json: &JsonValue) -> (r: Result<Vec<String>, String>)
    ensures
        spec_scene_names(*json).len() == 0 ==> (r matches Err(m) && m@
            == "Nenhuma cena encontrada neste arquivo."@),
        spec_scene_names(*json).len() > 0 ==> (r matches Ok(v) && string_views(v@)
            == spec_scene_names(*json)),
{
    let scenes = scene_names(json);
    if scenes.len() == 0 {
        Err(String::from_str("Nenhuma cena encontrada neste arquivo."))
    } else {
        Ok(scenes)
    }
}

/// The common part of every item.
pub open spec fn base_of(item: SceneItemView) -> BaseItemView {
    match item {
        SceneItemView::Image { base, .. } => base,
        SceneItemView::Video { base, .. } => base,
        SceneItemView::Gif { base, .. } => base,
        SceneItemView::Audio { base, .. } => base,
        SceneItemView::Text { base, .. } => base,
        SceneItemView::Browser { base, .. } => base,
        SceneItemView::Color { base, .. } => base,
        SceneItemView::Group { base, .. } => base,
    }
}

/// Every item among `items`, nested ones included, is visible.
pub open spec fn all_visible(items: Seq<SceneItemView>) -> bool
    decreases items,
{
    if items.len() == 0 {
        true
    } else {
        all_visible(items.drop_last()) && item_visible(items.last())
    }
}

/// The item is visible, and so is every item nested in it.
pub open spec fn item_visible(item: SceneItemView) -> bool
    decreases item,
{
    base_of(item).visible && match item {
        SceneItemView::Group { items, .. } => all_visible(items),
        _ => true,
    }
}

/// A visible entry parsed with only visible items asked for gives a visible item.
proof fn lemma_parse_item_visible(
    sources: Seq<JsonValue>,
    groups: Seq<JsonValue>,
    canvas: Canvas,
    item: JsonValue,
    source: JsonValue,
    fuel: nat,
)
    requires
        !is_hidden(item),
    ensures
        spec_parse_item(sources, groups, canvas, true, item, source, fuel) matches Some(Some(it))
            ==> item_visible(it),
    decreases fuel, 0nat,
{
    let sid = opt_or(j_str(at(source, "id"@)), ""@);
    let s = at(source, "settings"@);
    assert(spec_base(item, source).visible);
    if fuel > 0 {
        let raw = opt_or(j_array(j_field(s, "items"@)), seq![]);
        lemma_parse_items_visible(sources, groups, canvas, raw, seq![], raw.len(), (fuel - 1) as nat);
    }
}

/// Entries parsed with only visible items asked for give only visible items.
proof fn lemma_parse_items_visible(
    sources: Seq<JsonValue>,
    groups: Seq<JsonValue>,
    canvas: Canvas,
    raw: Seq<JsonValue>,
    exclude: Seq<Seq<char>>,
    n: nat,
    fuel: nat,
)
    ensures
        spec_parse_items(sources, groups, canvas, true, raw, exclude, n, fuel) matches Some(items)
            ==> all_visible(items),
    decreases fuel, n,
{
    if n > 0 && n <= raw.len() {
        lemma_parse_items_visible(sources, groups, canvas, raw, exclude, (n - 1) as nat, fuel);
        let item = raw[n - 1];
        if !is_hidden(item) {
            match lookup_source(sources, groups, entry_uuid(item), entry_name(item)) {
                Some(src) => {
                    lemma_parse_item_visible(sources, groups, canvas, item, src, fuel);
                },
                None => {},
            }
        }
        match spec_parse_items(sources, groups, canvas, true, raw, exclude, (n - 1) as nat, fuel) {
            Some(prev) => {
                assert forall|it: SceneItemView| item_visible(it) implies #[trigger] prev.push(it).drop_last() == prev
                    && all_visible(prev.push(it)) == all_visible(prev) by {
                    assert(prev.push(it).drop_last() =~= prev);
                }
            },
            None => {},
        }
    }
}

/// A scene parsed with only visible items asked for holds only visible
/// items, nested ones included.
pub proof fn law_only_visible_items(json: JsonValue, name: Seq<char>, d: SceneData)
    requires
        scene_parsed(json, name, true, Ok(d)),
    ensures
        all_visible(items_view(d.items@)),
{
    let scene = find_scene(json, name)->0;
    let raw = scene_entries(scene);
    let sources = spec_sources(json);
    let groups = spec_groups(json);
    lemma_parse_items_visible(
        sources,
        groups,
        spec_canvas(json),
        raw,
        group_child_uuids(sources, groups, raw, raw.len()),
        raw.len(),
        nesting_fuel(json),
    );
}

/// The entries among the first `n` of `raw` whose source uuid is not in
/// `exclude`, in order.
pub open spec fn kept_entries(raw: Seq<JsonValue>, exclude: Seq<Seq<char>>, n: nat) -> Seq<JsonValue>
    decreases n,
{
    if n == 0 || n > raw.len() {
        seq![]
    } else if exclude.contains(entry_uuid(raw[n - 1])) {
        kept_entries(raw, exclude, (n - 1) as nat)
    } else {
        kept_entries(raw, exclude, (n - 1) as nat).push(raw[n - 1])
    }
}

/// Parsing the first `n` entries depends on those entries only.
proof fn lemma_parse_items_prefix(
    sources: Seq<JsonValue>,
    groups: Seq<JsonValue>,
    canvas: Canvas,
    only_visible: bool,
    a: Seq<JsonValue>,
    b: Seq<JsonValue>,
    exclude: Seq<Seq<char>>,
    n: nat,
    fuel: nat,
)
    requires
        n <= a.len(),
        n <= b.len(),
        a.take(n as int) == b.take(n as int),
    ensures
        spec_parse_items(sources, groups, canvas, only_visible, a, exclude, n, fuel)
            == spec_parse_items(sources, groups, canvas, only_visible, b, exclude, n, fuel),
    decreases n,
{
    if n > 0 {
        assert(a.take(n - 1) =~= a.take(n as int).take(n - 1));
        assert(b.take(n - 1) =~= b.take(n as int).take(n - 1));
        assert(a[n - 1] == a.take(n as int)[n - 1]);
        assert(b[n - 1] == b.take(n as int)[n - 1]);
        lemma_parse_items_prefix(sources, groups, canvas, only_visible, a, b, exclude, (n - 1) as nat, fuel);
    }
}

/// Parsing with an exclusion list is parsing the kept entries with none.
proof fn lemma_parse_kept_entries(
    sources: Seq<JsonValue>,
    groups: Seq<JsonValue>,
    canvas: Canvas,
    only_visible: bool,
    raw: Seq<JsonValue>,
    exclude: Seq<Seq<char>>,
    n: nat,
    fuel: nat,
)
    requires
        n <= raw.len(),
    ensures
        spec_parse_items(sources, groups, canvas, only_visible, raw, exclude, n, fuel)
            == spec_parse_items(
            sources,
            groups,
            canvas,
            only_visible,
            kept_entries(raw, exclude, n),
            seq![],
            kept_entries(raw, exclude, n).len(),
            fuel,
        ),
    decreases n,
{
    if n > 0 {
        lemma_parse_kept_entries(sources, groups, canvas, only_visible, raw, exclude, (n - 1) as nat, fuel);
        let k = kept_entries(raw, exclude, (n - 1) as nat);
        if !exclude.contains(entry_uuid(raw[n - 1])) {
            let k2 = k.push(raw[n - 1]);
            assert(k2.take(k.len() as int) =~= k.take(k.len() as int));
            lemma_parse_items_prefix(sources, groups, canvas, only_visible, k2, k, seq![], k.len(), fuel);
            assert(!Seq::<Seq<char>>::empty().contains(entry_uuid(raw[n - 1])));
            assert(k2[k2.len() - 1] == raw[n - 1]);
        }
    }
}

/// Children of a group that OBS also lists among the scene's entries are
/// shown once, in their group: a scene's items are those that its other
/// entries give.
pub proof fn law_group_children_shown_once(json: JsonValue, scene: JsonValue, only_visible: bool)
    ensures
        ({
            let sources = spec_sources(json);
            let groups = spec_groups(json);
            let raw = scene_entries(scene);
            let kept = kept_entries(raw, group_child_uuids(sources, groups, raw, raw.len()), raw.len());
            &&& forall|i: int| 0 <= i < kept.len() ==> !group_child_uuids(sources, groups, raw, raw.len()).contains(
                entry_uuid(#[trigger] kept[i]),
            )
            &&& spec_scene_items(json, scene, only_visible) == spec_parse_items(
                sources,
                groups,
                spec_canvas(json),
                only_visible,
                kept,
                seq![],
                kept.len(),
                nesting_fuel(json),
            )
        }),
{
    let sources = spec_sources(json);
    let groups = spec_groups(json);
    let raw = scene_entries(scene);
    let ex = group_child_uuids(sources, groups, raw, raw.len());
    lemma_parse_kept_entries(sources, groups, spec_canvas(json), only_visible, raw, ex, raw.len(), nesting_fuel(json));
    lemma_kept_entries_not_excluded(raw, ex, raw.len());
}

/// No kept entry is excluded.
proof fn lemma_kept_entries_not_excluded(raw: Seq<JsonValue>, exclude: Seq<Seq<char>>, n: nat)
    ensures
        forall|i: int| 0 <= i < kept_entries(raw, exclude, n).len() ==> !exclude.contains(
            entry_uuid(#[trigger] kept_entries(raw, exclude, n)[i]),
        ),
    decreases n,
{
    if n > 0 && n <= raw.len() {
        lemma_kept_entries_not_excluded(raw, exclude, (n - 1) as nat);
        let prev = kept_entries(raw, exclude, (n - 1) as nat);
        let cur = kept_entries(raw, exclude, n);
        assert forall|i: int| 0 <= i < cur.len() implies !exclude.contains(entry_uuid(#[trigger] cur[i])) by {
            if i < prev.len() {
                assert(cur[i] == prev[i]);
            }
        }
    }
}

/// A scene that is the scene `name` at index `j` is found from any index up to `j`.
proof fn lemma_scene_index_found(sources: Seq<JsonValue>, name: Seq<char>, i: int, j: int)
    requires
        0 <= i <= j < sources.len(),
        is_scene_called(sources[j], name),
    ensures
        scene_index_from(sources, name, i) is Some,
    decreases j - i,
{
    if !is_scene_called(sources[i], name) {
        lemma_scene_index_found(sources, name, i + 1, j);
    }
}

/// Each listed name is the repaired name of a scene source.
proof fn lemma_listed_name_has_source(sources: Seq<JsonValue>, n: nat, k: int)
    requires
        n <= sources.len(),
        0 <= k < scene_names_upto(sources, n).len(),
    ensures
        exists|j: int|
            0 <= j < n && is_scene_source(sources[j]) && spec_fix_mojibake(entry_name(sources[j]))
                == #[trigger] scene_names_upto(sources, n)[k],
    decreases n,
{
    if n > 0 {
        let prev = scene_names_upto(sources, (n - 1) as nat);
        if k < prev.len() {
            lemma_listed_name_has_source(sources, (n - 1) as nat, k);
            let j = choose|j: int|
                0 <= j < n - 1 && is_scene_source(sources[j]) && spec_fix_mojibake(entry_name(sources[j]))
                    == #[trigger] prev[k];
            assert(scene_names_upto(sources, n)[k] == prev[k]);
        } else {
            assert(is_scene_source(sources[n - 1]));
            assert(spec_fix_mojibake(entry_name(sources[n - 1])) == scene_names_upto(sources, n)[k]);
        }
    }
}

/// Every scene that the list of scenes shows is found by the name it is
/// listed under, so it can be parsed and exported.
pub proof fn law_listed_scenes_are_found(json: JsonValue, k: int)
    requires
        0 <= k < spec_scene_names(json).len(),
    ensures
        find_scene(json, spec_scene_names(json)[k]) is Some,
{
    let sources = spec_sources(json);
    let name = spec_scene_names(json)[k];
    lemma_listed_name_has_source(sources, sources.len(), k);
    let j = choose|j: int|
        0 <= j < sources.len() && is_scene_source(sources[j]) && spec_fix_mojibake(entry_name(sources[j]))
            == #[trigger] scene_names_upto(sources, sources.len())[k];
    assert(is_scene_called(sources[j], name));
    lemma_scene_index_found(sources, name, 0, j);
}

/// A source that nests scene entries: a group, or a scene that lists items.
pub open spec fn nests(src: JsonValue) -> bool {
    let sid = opt_or(j_str(at(src, "id"@)), ""@);
    sid == "group"@ || (sid == "scene"@ && j_array(j_field(at(src, "settings"@), "items"@)) is Some)
}

/// The entries that a nesting source holds.
pub open spec fn nested_entries(src: JsonValue) -> Seq<JsonValue> {
    opt_or(j_array(j_field(at(src, "settings"@), "items"@)), seq![])
}

/// The nesting source `a` holds an entry, kept by the visibility option, that
/// shows the nesting source `b`.
pub open spec fn nests_into(
    sources: Seq<JsonValue>,
    groups: Seq<JsonValue>,
    only_visible: bool,
    a: JsonValue,
    b: JsonValue,
) -> bool {
    exists|j: int|
        0 <= j < nested_entries(a).len() && !(only_visible && is_hidden(nested_entries(a)[j]))
            && lookup_source(sources, groups, entry_uuid(#[trigger] nested_entries(a)[j]), entry_name(nested_entries(a)[j]))
            == Some(b) && nests(b)
}

/// A found element lies inside the list.
proof fn lemma_last_with_range(s: Seq<JsonValue>, key: Seq<char>, val: Seq<char>, i: int)
    ensures
        last_with(s, key, val, i) matches Some(k) ==> 0 <= k < s.len(),
    decreases i,
{
    if 0 < i <= s.len() && j_str(at(s[i - 1], key)) != Some(val) {
        lemma_last_with_range(s, key, val, i - 1);
    }
}

/// A looked-up source is one of the sources or groups.
proof fn lemma_lookup_in(sources: Seq<JsonValue>, groups: Seq<JsonValue>, uuid: Seq<char>, name: Seq<char>)
    ensures
        lookup_source(sources, groups, uuid, name) matches Some(v) ==> (sources + groups).contains(v),
{
    lemma_last_with_range(groups, "uuid"@, uuid, groups.len() as int);
    lemma_last_with_range(sources, "uuid"@, uuid, sources.len() as int);
    lemma_last_with_range(groups, "name"@, name, groups.len() as int);
    lemma_last_with_range(sources, "name"@, name, sources.len() as int);
    let all = sources + groups;
    match last_with(groups, "uuid"@, uuid, groups.len() as int) {
        Some(k) => {
            assert(all[sources.len() + k] == groups[k]);
        },
        None => match last_with(sources, "uuid"@, uuid, sources.len() as int) {
            Some(k) => {
                assert(all[k] == sources[k]);
            },
            None => match last_with(groups, "name"@, name, groups.len() as int) {
                Some(k) => {
                    assert(all[sources.len() + k] == groups[k]);
                },
                None => match last_with(sources, "name"@, name, sources.len() as int) {
                    Some(k) => {
                        assert(all[k] == sources[k]);
                    },
                    None => {},
                },
            },
        },
    }
}

/// Distinct elements of a list are no more than the list's length.
proof fn lemma_distinct_within(d: Seq<JsonValue>, x: Seq<JsonValue>)
    requires
        x.no_duplicates(),
        forall|k: int| 0 <= k < x.len() ==> d.contains(#[trigger] x[k]),
    ensures
        x.len() <= d.len(),
{
    broadcast use vstd::seq_lib::seq_to_set_is_finite;
    x.unique_seq_to_set();
    d.lemma_cardinality_of_set();
    assert(x.to_set().subset_of(d.to_set())) by {
        assert forall|v: JsonValue| x.to_set().contains(v) implies d.to_set().contains(v) by {
            let k = choose|k: int| 0 <= k < x.len() && x[k] == v;
            assert(d.contains(x[k]));
        }
    }
    vstd::set_lib::lemma_len_subset(x.to_set(), d.to_set());
}

/// A nesting source is none of the sources that show something themselves.
proof fn lemma_nests_is_no_leaf(src: JsonValue)
    requires
        nests(src),
    ensures
        ({
            let sid = opt_or(j_str(at(src, "id"@)), ""@);
            &&& sid != "image_source"@
            &&& sid != "ffmpeg_source"@
            &&& !is_text_source(sid)
            &&& sid != "color_source"@
            &&& sid != "color_source_v3"@
            &&& sid != "browser_source"@
        }),
{
    reveal_strlit("group");
    reveal_strlit("scene");
    reveal_strlit("image_source");
    reveal_strlit("ffmpeg_source");
    reveal_strlit("text_gdiplus");
    reveal_strlit("text_gdiplus_v2");
    reveal_strlit("text_gdiplus_v3");
    reveal_strlit("text_ft2_source");
    reveal_strlit("color_source");
    reveal_strlit("color_source_v3");
    reveal_strlit("browser_source");
    let sid = opt_or(j_str(at(src, "id"@)), ""@);
    assert(sid.len() == 5);
    assert("image_source"@.len() == 12);
    assert("ffmpeg_source"@.len() == 13);
    assert("text_gdiplus"@.len() == 12);
    assert("text_gdiplus_v2"@.len() == 15);
    assert("text_gdiplus_v3"@.len() == 15);
    assert("text_ft2_source"@.len() == 15);
    assert("color_source"@.len() == 12);
    assert("color_source_v3"@.len() == 15);
    assert("browser_source"@.len() == 14);
}

/// If the entries of `a` parse with `g` levels and `a` nests into `b`, the
/// entries of `b` parse with one level less.
proof fn lemma_nests_into_step(
    sources: Seq<JsonValue>,
    groups: Seq<JsonValue>,
    canvas: Canvas,
    only_visible: bool,
    a: JsonValue,
    b: JsonValue,
    g: nat,
)
    requires
        nests_into(sources, groups, only_visible, a, b),
        spec_parse_items(sources, groups, canvas, only_visible, nested_entries(a), seq![], nested_entries(a).len(), g) is Some,
    ensures
        g >= 1,
        spec_parse_items(sources, groups, canvas, only_visible, nested_entries(b), seq![], nested_entries(b).len(), (g - 1) as nat) is Some,
{
    let raw = nested_entries(a);
    let j = choose|j: int|
        0 <= j < nested_entries(a).len() && !(only_visible && is_hidden(nested_entries(a)[j]))
            && lookup_source(sources, groups, entry_uuid(#[trigger] nested_entries(a)[j]), entry_name(nested_entries(a)[j]))
            == Some(b) && nests(b);
    if spec_parse_items(sources, groups, canvas, only_visible, raw, seq![], (j + 1) as nat, g) is None {
        lemma_parse_items_none_persists(sources, groups, canvas, only_visible, raw, seq![], (j + 1) as nat, raw.len(), g);
    }
    assert(!Seq::<Seq<char>>::empty().contains(entry_uuid(raw[j])));
    lemma_nests_is_no_leaf(b);
    assert(spec_parse_item(sources, groups, canvas, only_visible, raw[j], b, g) is Some);
}

/// Following a chain of nesting sources from its first one, with `g` levels.
proof fn lemma_nests_walk(
    sources: Seq<JsonValue>,
    groups: Seq<JsonValue>,
    canvas: Canvas,
    only_visible: bool,
    cyc: Seq<JsonValue>,
    j: int,
    g: nat,
)
    requires
        0 <= j < cyc.len(),
        forall|k: int| 0 <= k < cyc.len() - 1 ==> nests_into(sources, groups, only_visible, #[trigger] cyc[k], cyc[k + 1]),
        spec_parse_items(sources, groups, canvas, only_visible, nested_entries(cyc[0]), seq![], nested_entries(cyc[0]).len(), g) is Some,
    ensures
        g >= j,
        spec_parse_items(sources, groups, canvas, only_visible, nested_entries(cyc[j]), seq![], nested_entries(cyc[j]).len(), (g - j) as nat) is Some,
    decreases j,
{
    if j > 0 {
        lemma_nests_walk(sources, groups, canvas, only_visible, cyc, j - 1, g);
        lemma_nests_into_step(sources, groups, canvas, only_visible, cyc[j - 1], cyc[j], (g - (j - 1)) as nat);
    }
}

/// The entries of a source on a cycle of nesting sources parse with no
/// number of levels.
proof fn lemma_cycle_never_parses(
    sources: Seq<JsonValue>,
    groups: Seq<JsonValue>,
    canvas: Canvas,
    only_visible: bool,
    cyc: Seq<JsonValue>,
    g: nat,
)
    requires
        cyc.len() >= 1,
        forall|k: int| 0 <= k < cyc.len() - 1 ==> nests_into(sources, groups, only_visible, #[trigger] cyc[k], cyc[k + 1]),
        nests_into(sources, groups, only_visible, cyc.last(), cyc[0]),
    ensures
        spec_parse_items(sources, groups, canvas, only_visible, nested_entries(cyc[0]), seq![], nested_entries(cyc[0]).len(), g) is None,
    decreases g,
{
    if spec_parse_items(sources, groups, canvas, only_visible, nested_entries(cyc[0]), seq![], nested_entries(cyc[0]).len(), g) is Some {
        let m = cyc.len() - 1;
        lemma_nests_walk(sources, groups, canvas, only_visible, cyc, m, g);
        assert(cyc[m] == cyc.last());
        lemma_nests_into_step(sources, groups, canvas, only_visible, cyc.last(), cyc[0], (g - m) as nat);
        lemma_cycle_never_parses(sources, groups, canvas, only_visible, cyc, (g - m - 1) as nat);
    }
}

/// An entry that shows a nesting source whose entries parse with no number
/// of levels makes its list parse with no number of levels.
proof fn lemma_entry_blocks(
    sources: Seq<JsonValue>,
    groups: Seq<JsonValue>,
    canvas: Canvas,
    only_visible: bool,
    raw: Seq<JsonValue>,
    exclude: Seq<Seq<char>>,
    n: nat,
    src: JsonValue,
    g: nat,
)
    requires
        0 < n <= raw.len(),
        !exclude.contains(entry_uuid(raw[n - 1])),
        !(only_visible && is_hidden(raw[n - 1])),
        lookup_source(sources, groups, entry_uuid(raw[n - 1]), entry_name(raw[n - 1])) == Some(src),
        nests(src),
        forall|h: nat| #[trigger] spec_parse_items(sources, groups, canvas, only_visible, nested_entries(src), seq![], nested_entries(src).len(), h) is None,
    ensures
        spec_parse_items(sources, groups, canvas, only_visible, raw, exclude, n, g) is None,
{
    lemma_nests_is_no_leaf(src);
    if g > 0 {
        assert(spec_parse_items(sources, groups, canvas, only_visible, nested_entries(src), seq![], nested_entries(src).len(), (g - 1) as nat) is None);
    }
    assert(spec_parse_item(sources, groups, canvas, only_visible, raw[n - 1], src, g) is None);
}

/// Parsing that runs out of levels while the levels left and the chain of
/// distinct nesting sources above it together exceed the sources and groups
/// runs out with any number of levels: it has met a cycle.
proof fn lemma_out_of_levels_is_cycle(
    sources: Seq<JsonValue>,
    groups: Seq<JsonValue>,
    canvas: Canvas,
    only_visible: bool,
    raw: Seq<JsonValue>,
    exclude: Seq<Seq<char>>,
    n: nat,
    f: nat,
    anc: Seq<JsonValue>,
)
    requires
        n <= raw.len(),
        anc.no_duplicates(),
        forall|k: int| 0 <= k < anc.len() ==> (sources + groups).contains(#[trigger] anc[k]),
        f + anc.len() >= sources.len() + groups.len() + 1,
        anc.len() > 0 ==> raw == nested_entries(anc.last()) && exclude == Seq::<Seq<char>>::empty(),
        forall|k: int| 0 <= k < anc.len() - 1 ==> nests_into(sources, groups, only_visible, #[trigger] anc[k], anc[k + 1]),
        spec_parse_items(sources, groups, canvas, only_visible, raw, exclude, n, f) is None,
    ensures
        forall|g: nat| #[trigger] spec_parse_items(sources, groups, canvas, only_visible, raw, exclude, n, g) is None,
    decreases f, n,
{
    if n == 0 || n > raw.len() {
        return;
    }
    if spec_parse_items(sources, groups, canvas, only_visible, raw, exclude, (n - 1) as nat, f) is None {
        lemma_out_of_levels_is_cycle(sources, groups, canvas, only_visible, raw, exclude, (n - 1) as nat, f, anc);
        assert forall|g: nat| #[trigger] spec_parse_items(sources, groups, canvas, only_visible, raw, exclude, n, g) is None by {
            assert(spec_parse_items(sources, groups, canvas, only_visible, raw, exclude, (n - 1) as nat, g) is None);
        }
        return;
    }
    let item = raw[n - 1];
    let found = lookup_source(sources, groups, entry_uuid(item), entry_name(item));
    assert(!exclude.contains(entry_uuid(item)) && !(only_visible && is_hidden(item)));
    assert(found is Some);
    let src = found->0;
    assert(spec_parse_item(sources, groups, canvas, only_visible, item, src, f) is None);
    assert(nests(src));
    let body = nested_entries(src);
    lemma_lookup_in(sources, groups, entry_uuid(item), entry_name(item));
    lemma_distinct_within(sources + groups, anc);
    assert(f >= 1);
    assert(spec_parse_items(sources, groups, canvas, only_visible, body, seq![], body.len(), (f - 1) as nat) is None);
    if anc.len() > 0 {
        assert(nests_into(sources, groups, only_visible, anc.last(), src)) by {
            assert(nested_entries(anc.last())[n - 1] == item);
        }
    }
    if anc.contains(src) {
        let i = choose|i: int| 0 <= i < anc.len() && anc[i] == src;
        let cyc = anc.subrange(i, anc.len() as int);
        assert(cyc.last() == anc.last());
        assert forall|k: int| 0 <= k < cyc.len() - 1 implies nests_into(sources, groups, only_visible, #[trigger] cyc[k], cyc[k + 1]) by {
            assert(cyc[k] == anc[i + k]);
            assert(cyc[k + 1] == anc[i + k + 1]);
        }
        assert forall|h: nat| #[trigger] spec_parse_items(sources, groups, canvas, only_visible, nested_entries(src), seq![], nested_entries(src).len(), h) is None by {
            lemma_cycle_never_parses(sources, groups, canvas, only_visible, cyc, h);
        }
    } else {
        let anc2 = anc.push(src);
        assert forall|k: int| 0 <= k < anc2.len() implies (sources + groups).contains(#[trigger] anc2[k]) by {
            if k < anc.len() {
                assert(anc2[k] == anc[k]);
            }
        }
        assert forall|k: int| 0 <= k < anc2.len() - 1 implies nests_into(sources, groups, only_visible, #[trigger] anc2[k], anc2[k + 1]) by {
            assert(anc2[k] == anc[k]);
            if k + 1 < anc.len() {
                assert(anc2[k + 1] == anc[k + 1]);
            } else {
                assert(anc[k] == anc.last());
            }
        }
        assert(anc2.no_duplicates()) by {
            assert forall|x: int, y: int| 0 <= x < anc2.len() && 0 <= y < anc2.len() && x != y implies anc2[x] != anc2[y] by {
                if x < anc.len() && y < anc.len() {
                } else if x < anc.len() {
                    assert(anc.contains(anc2[x]));
                } else {
                    assert(anc.contains(anc2[y]));
                }
            }
        }
        assert(anc2.last() == src);
        lemma_out_of_levels_is_cycle(sources, groups, canvas, only_visible, body, seq![], body.len(), (f - 1) as nat, anc2);
    }
    assert forall|g: nat| #[trigger] spec_parse_items(sources, groups, canvas, only_visible, raw, exclude, n, g) is None by {
        lemma_entry_blocks(sources, groups, canvas, only_visible, raw, exclude, n, src, g);
    }
}

/// Nesting deeper than there are sources and groups can only be a cycle: a
/// scene whose items cannot be parsed within `nesting_fuel` levels cannot be
/// parsed within any number of levels.
pub proof fn law_nesting_fuel_suffices(json: JsonValue, scene: JsonValue, only_visible: bool, levels: nat)
    requires
        spec_sources(json).len() + spec_groups(json).len() < usize::MAX,
        spec_scene_items(json, scene, only_visible) is None,
    ensures
        spec_parse_items(
            spec_sources(json),
            spec_groups(json),
            spec_canvas(json),
            only_visible,
            scene_entries(scene),
            group_child_uuids(spec_sources(json), spec_groups(json), scene_entries(scene), scene_entries(scene).len()),
            scene_entries(scene).len(),
            levels,
        ) is None,
{
    let sources = spec_sources(json);
    let groups = spec_groups(json);
    let raw = scene_entries(scene);
    let ex = group_child_uuids(sources, groups, raw, raw.len());
    lemma_out_of_levels_is_cycle(sources, groups, spec_canvas(json), only_visible, raw, ex, raw.len(), nesting_fuel(json), seq![]);
    assert(spec_parse_items(sources, groups, spec_canvas(json), only_visible, raw, ex, raw.len(), levels) is None);
}

/// A text source is none of the sources tested before text sources.
proof fn lemma_text_is_not_media(sid: Seq<char>)
    requires
        is_text_source(sid),
    ensures
        sid != "image_source"@,
        sid != "ffmpeg_source"@,
{
    reveal_strlit("image_source");
    reveal_strlit("ffmpeg_source");
    reveal_strlit("text_gdiplus");
    reveal_strlit("text_gdiplus_v2");
    reveal_strlit("text_gdiplus_v3");
    reveal_strlit("text_ft2_source");
    assert("image_source"@[0] == 'i');
    assert("ffmpeg_source"@[0] == 'f');
    assert(sid[0] == 't');
}

/// A text source's font flags give its style: bit 1 makes it bold, bit 2
/// italic, each independently of the other; no flags means neither. So
/// flags 1 give bold upright text.
pub proof fn law_text_font_flags(
    sources: Seq<JsonValue>,
    groups: Seq<JsonValue>,
    canvas: Canvas,
    only_visible: bool,
    item: JsonValue,
    source: JsonValue,
    fuel: nat,
)
    requires
        is_text_source(opt_or(j_str(at(source, "id"@)), ""@)),
    ensures
        ({
            let flags = opt_or(j_i64(j_field(j_field(at(source, "settings"@), "font"@), "flags"@)), 0i64);
            &&& spec_parse_item(sources, groups, canvas, only_visible, item, source, fuel) matches Some(
                Some(SceneItemView::Text { font_bold, font_italic, .. }),
            )
            &&& spec_parse_item(sources, groups, canvas, only_visible, item, source, fuel)->0->0->font_bold
                == ((flags & 1) != 0)
            &&& spec_parse_item(sources, groups, canvas, only_visible, item, source, fuel)->0->0->font_italic
                == ((flags & 2) != 0)
            &&& flags == 1 ==> spec_parse_item(sources, groups, canvas, only_visible, item, source, fuel)->0->0->font_bold
                && !spec_parse_item(sources, groups, canvas, only_visible, item, source, fuel)->0->0->font_italic
        }),
{
    lemma_text_is_not_media(opt_or(j_str(at(source, "id"@)), ""@));
    assert((1i64 & 1i64) != 0 && (1i64 & 2i64) == 0) by (bit_vector);
}

} // verus!
