//! The exporter's window state and the decisions it takes; the window itself,
//! the file system and the export thread live outside the library.

use vstd::prelude::*;
use vstd::string::{StringExecFns, StringSliceAdditionalSpecFns};
use vstd::utf8::{decode_utf8, encode_utf8, encode_utf8_decode_utf8, is_char_boundary};
use crate::assets::{
    AssetEntry, assets_view, copied_upto, export_summary, missing_upto, short_name_of, short_path,
    summary_text,
};
use crate::doc::{NumFmt, Token, docs_view, lit, new_doc, push_doc, push_num, push_str};
use crate::json::JsonValue;
use crate::parser::{
    BaseItem, BaseItemView, SceneData, SceneItem, SceneItemView, base_of, item_view, items_view,
    lemma_items_view_push, scene_names, spec_scene_names,
};
use crate::text::{i64_to_decimal, int_decimal, nat_decimal, string_views, usize_to_decimal};

verus! {

/// What the export thread reports to the window.
pub enum Msg {
    Log(String),
    Done { output_dir: String },
}

/// How reading a scene collection file went.
pub enum LoadOutcome {
    /// The file could not be read; the error text.
    Unreadable(String),
    /// The file is not JSON; the parser's error text.
    InvalidJson(String),
    /// The file's text and the JSON it holds.
    Parsed { content: String, json: JsonValue },
}

/// What an export needs: the scene, the collection's text, and whether only
/// visible items are exported.
pub struct ExportJob {
    pub scene_name: String,
    pub json_content: String,
    pub only_visible: bool,
}

/// The exporter's state: the collection file, its scenes, the selection, the
/// option, the log and the export status.
pub struct App {
    pub json_path: String,
    pub json_content: Option<String>,
    pub scenes: Vec<String>,
    pub selected: Option<usize>,
    pub only_visible: bool,
    pub log: Vec<Vec<Token>>,
    pub exporting: bool,
    pub output_path: Option<String>,
}

pub open spec fn opt_view(o: Option<String>) -> Option<Seq<char>> {
    match o {
        Some(s) => Some(s@),
        None => None,
    }
}

impl App {
    /// A selection, when there is one, names one of the scenes.
    pub open spec fn wf(&self) -> bool {
        self.selected matches Some(i) ==> i < self.scenes@.len()
    }
}

impl Default for App {
    /// Nothing loaded, only visible items, an empty log, no export.
    fn default() -> (r: Self)
        ensures
            r.json_path@ == Seq::<char>::empty(),
            r.json_content is None,
            r.scenes@.len() == 0,
            r.selected is None,
            r.only_visible,
            r.log@.len() == 0,
            !r.exporting,
            r.output_path is None,
            r.wf(),
    {
        App {
            json_path: String::new(),
            json_content: None,
            scenes: Vec::new(),
            selected: None,
            only_visible: true,
            log: Vec::new(),
            exporting: false,
            output_path: None,
        }
    }
}

/// A log line of plain text.
pub open spec fn text_line(s: Seq<char>) -> Seq<Token> {
    lit(s)
}

/// The log after loading a collection file.
pub open spec fn load_log(outcome: LoadOutcome) -> Seq<Seq<Token>> {
    match outcome {
        LoadOutcome::Unreadable(e) => seq![lit("✗ Não foi possível abrir o arquivo: "@ + e@)],
        LoadOutcome::InvalidJson(e) => seq![lit("✗ JSON inválido: "@ + e@)],
        LoadOutcome::Parsed { json, .. } => if spec_scene_names(json).len() == 0 {
            seq![lit("⚠ Nenhuma cena encontrada no arquivo."@)]
        } else {
            seq![]
        },
    }
}

fn line_of(prefix: &str, text: &str) -> (r: Vec<Token>)
    ensures
        r@ == lit(prefix@ + text@),
{
    let mut d = new_doc(prefix);
    push_str(&mut d, text);
    proof {
        crate::doc::lemma_lit_concat(prefix@, text@);
    }
    d
}

impl App {
    /// Takes in a collection file: the scenes it holds become the list to
    /// choose from (none selected); a file that cannot be read, is not JSON or
    /// has no scene leaves the list empty and says why in the log.
    pub fn load_json(&mut self, outcome: LoadOutcome)
        ensures
            final(self).json_path == old(self).json_path,
            final(self).only_visible == old(self).only_visible,
            final(self).exporting == old(self).exporting,
            final(self).selected is None,
            final(self).output_path is None,
            docs_view(final(self).log@) == load_log(outcome),
            match outcome {
                LoadOutcome::Parsed { content, json } => if spec_scene_names(json).len() > 0 {
                    opt_view(final(self).json_content) == Some(content@) && string_views(
                        final(self).scenes@,
                    ) == spec_scene_names(json)
                } else {
                    final(self).json_content is None && final(self).scenes@.len() == 0
                },
                _ => final(self).json_content is None && final(self).scenes@.len() == 0,
            },
            final(self).wf(),
    {
        self.scenes = Vec::new();
        self.selected = None;
        self.log = Vec::new();
        self.output_path = None;
        self.json_content = None;
        match outcome {
            LoadOutcome::Unreadable(e) => {
                let line = line_of("✗ Não foi possível abrir o arquivo: ", e.as_str());
                self.log.push(line);
                assert(docs_view(self.log@) =~= seq![line@]);
            },
            LoadOutcome::InvalidJson(e) => {
                let line = line_of("✗ JSON inválido: ", e.as_str());
                self.log.push(line);
                assert(docs_view(self.log@) =~= seq![line@]);
            },
            LoadOutcome::Parsed { content, json } => {
                let scenes = scene_names(&json);
                if scenes.len() == 0 {
                    let line = new_doc("⚠ Nenhuma cena encontrada no arquivo.");
                    self.log.push(line);
                    assert(docs_view(self.log@) =~= seq![line@]);
                } else {
                    assert(docs_view(self.log@) =~= Seq::<Seq<Token>>::empty());
                    self.json_content = Some(content);
                    self.scenes = scenes;
                }
            },
        }
    }

    /// Whether the export button is enabled: a scene is selected and no
    /// export is running.
    pub fn can_export(&self) -> (r: bool)
        ensures
            r == (self.selected is Some && !self.exporting),
    {
        self.selected.is_some() && !self.exporting
    }

    /// Selects scene `scene_idx` and starts its preview: when a collection is
    /// loaded the log and output path are cleared and the scene's name and the
    /// collection's text are handed back for parsing; otherwise nothing else
    /// changes.
    pub fn select_scene(&mut self, scene_idx: usize) -> (r: Option<(String, String)>)
        requires
            scene_idx < old(self).scenes@.len(),
        ensures
            final(self).selected == Some(scene_idx),
            final(self).scenes == old(self).scenes,
            final(self).json_content == old(self).json_content,
            final(self).json_path == old(self).json_path,
            final(self).only_visible == old(self).only_visible,
            final(self).exporting == old(self).exporting,
            final(self).wf(),
            match old(self).json_content {
                Some(c) => r matches Some(p) && p.0@ == old(self).scenes@[scene_idx as int]@
                    && p.1@ == c@ && final(self).log@.len() == 0 && final(self).output_path is None,
                None => r is None && final(self).log == old(self).log && final(self).output_path
                    == old(self).output_path,
            },
    {
        self.selected = Some(scene_idx);
        let name = self.scenes[scene_idx].clone();
        match &self.json_content {
            Some(c) => {
                let content = c.clone();
                self.log = Vec::new();
                self.output_path = None;
                Some((name, content))
            },
            None => None,
        }
    }

    /// Logs that the collection's text is not valid JSON.
    pub fn log_invalid_json(&mut self, err: &str)
        ensures
            final(self).log@.len() == old(self).log@.len() + 1,
            docs_view(final(self).log@) == docs_view(old(self).log@).push(
                lit("✗ JSON inválido: "@ + err@),
            ),
            final(self).scenes == old(self).scenes,
            final(self).selected == old(self).selected,
            final(self).exporting == old(self).exporting,
    {
        let line = line_of("✗ JSON inválido: ", err);
        let ghost before = self.log@;
        self.log.push(line);
        assert(docs_view(self.log@) =~= docs_view(before).push(line@));
    }

    /// Logs that a scene could not be parsed.
    pub fn log_scene_error(&mut self, err: &str)
        ensures
            docs_view(final(self).log@) == docs_view(old(self).log@).push(lit("✗ "@ + err@)),
            final(self).scenes == old(self).scenes,
            final(self).selected == old(self).selected,
            final(self).exporting == old(self).exporting,
    {
        let line = line_of("✗ ", err);
        let ghost before = self.log@;
        self.log.push(line);
        assert(docs_view(self.log@) =~= docs_view(before).push(line@));
    }
}


// ─── Scene log ───────────────────────────────────────────────────────────────

/// Two spaces per nesting level.
pub open spec fn indent_spaces(depth: nat) -> Seq<char>
    decreases depth,
{
    if depth == 0 {
        seq![]
    } else {
        indent_spaces((depth - 1) as nat) + "  "@
    }
}

/// `VIS` for a visible item, `HID` for a hidden one.
pub open spec fn vis_tag(b: BaseItemView) -> Seq<char> {
    if b.visible {
        "VIS"@
    } else {
        "HID"@
    }
}

/// Position (no decimals), scale (two decimals) and alignment of an item.
pub open spec fn pos_info(b: BaseItemView) -> Seq<Token> {
    lit("pos("@) + seq![Token::Num(NumFmt::Fixed { value: b.pos.x, digits: 0 })] + lit(","@)
        + seq![Token::Num(NumFmt::Fixed { value: b.pos.y, digits: 0 })] + lit(") scale("@) + seq![
        Token::Num(NumFmt::Fixed { value: b.scale.x, digits: 2 }),
    ] + lit(","@) + seq![Token::Num(NumFmt::Fixed { value: b.scale.y, digits: 2 })] + lit(
        ") align="@,
    ) + lit(int_decimal(b.item_align as int))
}

/// The first 25 bytes of a text, as characters (the whole text when shorter).
pub open spec fn log_text_prefix(t: Seq<char>) -> Seq<char> {
    if encode_utf8(t).len() <= 25 {
        t
    } else {
        decode_utf8(encode_utf8(t).take(25))
    }
}

/// A text can be cut after 25 bytes: it is shorter, or byte 25 starts a character.
pub open spec fn text_cut_ok(t: Seq<char>) -> bool {
    encode_utf8(t).len() <= 25 || is_char_boundary(encode_utf8(t), 25)
}

/// How many media items (image, video, GIF, sound) there are, nested ones included.
pub open spec fn media_count(item: SceneItemView) -> nat
    decreases item,
{
    match item {
        SceneItemView::Image { .. } | SceneItemView::Video { .. } | SceneItemView::Gif { .. }
        | SceneItemView::Audio { .. } => 1,
        SceneItemView::Group { items, .. } => media_count_items(items),
        _ => 0,
    }
}

/// How many media items there are among `items`, nested ones included.
pub open spec fn media_count_items(items: Seq<SceneItemView>) -> nat
    decreases items,
{
    if items.len() == 0 {
        0
    } else {
        media_count_items(items.drop_last()) + media_count(items.last())
    }
}

/// The files of the media items (image, video, GIF, sound), nested ones
/// included, in order.
pub open spec fn media_files(item: SceneItemView) -> Seq<Seq<char>>
    decreases item,
{
    match item {
        SceneItemView::Image { file, .. } => seq![file],
        SceneItemView::Video { file, .. } => seq![file],
        SceneItemView::Gif { file, .. } => seq![file],
        SceneItemView::Audio { file, .. } => seq![file],
        SceneItemView::Group { items, .. } => media_files_items(items),
        _ => seq![],
    }
}

/// The files of the media items among `items`, nested ones included, in order.
pub open spec fn media_files_items(items: Seq<SceneItemView>) -> Seq<Seq<char>>
    decreases items,
{
    if items.len() == 0 {
        seq![]
    } else {
        media_files_items(items.drop_last()) + media_files(items.last())
    }
}

/// Each of `names` is the short name of the file at its index in `files`.
pub open spec fn names_fit(files: Seq<Seq<char>>, names: Seq<Seq<char>>) -> bool {
    &&& names.len() == files.len()
    &&& forall|k: int| 0 <= k < names.len() ==> short_name_of(files[k], #[trigger] names[k])
}

/// Short names of two lists of files, one after the other, fit the files one
/// after the other.
pub proof fn lemma_names_fit_concat(
    f1: Seq<Seq<char>>,
    n1: Seq<Seq<char>>,
    f2: Seq<Seq<char>>,
    n2: Seq<Seq<char>>,
)
    requires
        names_fit(f1, n1),
        names_fit(f2, n2),
    ensures
        names_fit(f1 + f2, n1 + n2),
{
    assert forall|k: int| 0 <= k < (n1 + n2).len() implies short_name_of((f1 + f2)[k], #[trigger] (n1 + n2)[k]) by {
        if k < n1.len() {
            assert((f1 + f2)[k] == f1[k]);
            assert((n1 + n2)[k] == n1[k]);
        } else {
            assert((f1 + f2)[k] == f2[k - f1.len()]);
            assert((n1 + n2)[k] == n2[k - n1.len()]);
        }
    }
}

/// How many items there are, the item itself and nested ones included.
pub open spec fn total_items(item: SceneItemView) -> nat
    decreases item,
{
    match item {
        SceneItemView::Group { items, .. } => 1 + total_items_items(items),
        _ => 1,
    }
}

/// How many items there are among `items`, nested ones included.
pub open spec fn total_items_items(items: Seq<SceneItemView>) -> nat
    decreases items,
{
    if items.len() == 0 {
        0
    } else {
        total_items_items(items.drop_last()) + total_items(items.last())
    }
}

/// An item counts no more items than the list it belongs to.
pub proof fn lemma_total_items_elem(items: Seq<SceneItemView>, i: int)
    requires
        0 <= i < items.len(),
    ensures
        total_items(items[i]) <= total_items_items(items),
    decreases items.len(),
{
    if i < items.len() - 1 {
        lemma_total_items_elem(items.drop_last(), i);
    }
}

/// Every text item, nested ones included, can be cut after 25 bytes.
pub open spec fn cut_ok(item: SceneItemView) -> bool
    decreases item,
{
    match item {
        SceneItemView::Text { text, .. } => text_cut_ok(text),
        SceneItemView::Group { items, .. } => cut_ok_items(items),
        _ => true,
    }
}

/// Every text item among `items`, nested ones included, can be cut after 25 bytes.
pub open spec fn cut_ok_items(items: Seq<SceneItemView>) -> bool
    decreases items,
{
    if items.len() == 0 {
        true
    } else {
        cut_ok_items(items.drop_last()) && cut_ok(items.last())
    }
}

/// The log line of an item: visibility, indentation, name, what it shows and
/// where it sits.
pub open spec fn item_line(b: BaseItemView, depth: nat, detail: Seq<Token>) -> Seq<Token> {
    lit("["@) + lit(vis_tag(b)) + lit("] "@) + lit(indent_spaces(depth)) + lit(b.name) + lit("  "@)
        + detail + lit("  "@) + pos_info(b)
}

/// What the log line of a non-group item says it shows; media files by the
/// short name `name`.
pub open spec fn item_detail(item: SceneItemView, name: Seq<char>) -> Seq<Token> {
    match item {
        SceneItemView::Image { .. } => lit("image   │ "@) + lit(name),
        SceneItemView::Video { .. } => lit("video   │ "@) + lit(name),
        SceneItemView::Gif { .. } => lit("gif     │ "@) + lit(name),
        SceneItemView::Audio { .. } => lit("audio   │ "@) + lit(name),
        SceneItemView::Text { text, font_face, font_size, .. } => lit("text    │ font:"@) + lit(
            font_face,
        ) + lit(" "@) + seq![Token::Num(NumFmt::Display(font_size))] + lit("px  \""@) + lit(
            log_text_prefix(text),
        ) + lit("\""@),
        SceneItemView::Browser { url, .. } => lit("browser │ "@) + lit(url),
        SceneItemView::Color { width, height, .. } => lit("color   │ "@) + seq![
            Token::Num(NumFmt::Display(width)),
        ] + lit("×"@) + seq![Token::Num(NumFmt::Display(height))],
        _ => seq![],
    }
}

/// The log lines of an item at nesting `depth`; `names` are the short names
/// of its media files, in order. A group has a line of its own, then its
/// children's lines one level deeper.
pub open spec fn item_log(item: SceneItemView, depth: nat, names: Seq<Seq<char>>) -> Seq<Seq<Token>>
    decreases item,
{
    match item {
        SceneItemView::Group { base, items } => seq![
            lit("["@) + lit(vis_tag(base)) + lit("] "@) + lit(indent_spaces(depth)) + lit(base.name)
                + lit("  grupo ("@) + lit(nat_decimal(items.len())) + lit(" filhos)  "@) + pos_info(
                base,
            ),
        ] + items_log(items, depth + 1, names),
        _ => seq![item_line(base_of(item), depth, item_detail(item, names[0]))],
    }
}

/// The log lines of `items` at nesting `depth`; `names` are the short names of
/// their media files, in order.
pub open spec fn items_log(items: Seq<SceneItemView>, depth: nat, names: Seq<Seq<char>>) -> Seq<
    Seq<Token>,
>
    decreases items,
{
    if items.len() == 0 {
        seq![]
    } else {
        let m = media_count_items(items.drop_last());
        items_log(items.drop_last(), depth, names.take(m as int)) + item_log(
            items.last(),
            depth,
            names.skip(m as int),
        )
    }
}

fn indent_exec(depth: usize) -> (r: String)
    ensures
        r@ == indent_spaces(depth as nat),
{
    let mut s = String::new();
    let mut i: usize = 0;
    while i < depth
        invariant
            i <= depth,
            s@ == indent_spaces(i as nat),
        decreases depth - i,
    {
        s.append("  ");
        i = i + 1;
    }
    s
}

fn push_pos_info(doc: &mut Vec<Token>, base: &BaseItem)
    ensures
        final(doc)@ == old(doc)@ + pos_info(base@),
{
    let ghost start = doc@;
    let mut d = new_doc("pos(");
    push_num(&mut d, NumFmt::Fixed { value: base.pos.x, digits: 0 });
    push_str(&mut d, ",");
    push_num(&mut d, NumFmt::Fixed { value: base.pos.y, digits: 0 });
    push_str(&mut d, ") scale(");
    push_num(&mut d, NumFmt::Fixed { value: base.scale.x, digits: 2 });
    push_str(&mut d, ",");
    push_num(&mut d, NumFmt::Fixed { value: base.scale.y, digits: 2 });
    push_str(&mut d, ") align=");
    let a = i64_to_decimal(base.item_align);
    push_str(&mut d, a.as_str());
    push_doc(doc, &d);
}

fn line_head(base: &BaseItem, depth: usize) -> (r: Vec<Token>)
    ensures
        r@ == lit("["@) + lit(vis_tag(base@)) + lit("] "@) + lit(indent_spaces(depth as nat)) + lit(
            base@.name,
        ),
{
    let ind = indent_exec(depth);
    let mut d = new_doc("[");
    push_str(&mut d, if base.visible { "VIS" } else { "HID" });
    push_str(&mut d, "] ");
    push_str(&mut d, ind.as_str());
    push_str(&mut d, base.name.as_str());
    d
}

fn text_prefix(text: &str) -> (r: &str)
    requires
        text_cut_ok(text@),
    ensures
        r@ == log_text_prefix(text@),
{
    if text.as_bytes().len() <= 25 {
        text
    } else {
        let (head, _) = text.split_at(25);
        proof {
            encode_utf8_decode_utf8(head@);
            assert(head.spec_bytes() =~= encode_utf8(text@).take(25));
            assert(encode_utf8(head@) == encode_utf8(text@).take(25));
            assert(decode_utf8(encode_utf8(head@)) == head@);
        }
        head
    }
}

impl App {
    fn log_item(&mut self, item: &SceneItem, depth: usize) -> (names: Ghost<Seq<Seq<char>>>)
        requires
            cut_ok(item_view(*item)),
            depth + total_items(item_view(*item)) < usize::MAX,
        ensures
            names@.len() == media_count(item_view(*item)),
            names_fit(media_files(item_view(*item)), names@),
            docs_view(final(self).log@) == docs_view(old(self).log@) + item_log(
                item_view(*item),
                depth as nat,
                names@,
            ),
            final(self).scenes == old(self).scenes,
            final(self).selected == old(self).selected,
            final(self).exporting == old(self).exporting,
            final(self).json_content == old(self).json_content,
        decreases item, 1nat,
    {
        let ghost before = docs_view(self.log@);
        match item {
            SceneItem::Group { base, items } => {
                let mut d = line_head(base, depth);
                push_str(&mut d, "  grupo (");
                let n = usize_to_decimal(items.len());
                push_str(&mut d, n.as_str());
                push_str(&mut d, " filhos)  ");
                push_pos_info(&mut d, base);
                proof {
                    crate::parser::lemma_items_view_len(items@);
                }
                self.log.push(d);
                assert(docs_view(self.log@) =~= before.push(d@));
                let names = self.log_items_rec(items, depth + 1);
                assert(docs_view(self.log@) =~= before + item_log(item_view(*item), depth as nat, names@));
                names
            },
            _ => {
                let (base, detail, name): (&BaseItem, Vec<Token>, Ghost<Seq<char>>) = match item {
                    SceneItem::Image { base, file } => {
                        let n = short_path(file.as_str());
                        (base, line_of("image   │ ", n.as_str()), Ghost(n@))
                    },
                    SceneItem::Video { base, file, .. } => {
                        let n = short_path(file.as_str());
                        (base, line_of("video   │ ", n.as_str()), Ghost(n@))
                    },
                    SceneItem::Gif { base, file } => {
                        let n = short_path(file.as_str());
                        (base, line_of("gif     │ ", n.as_str()), Ghost(n@))
                    },
                    SceneItem::Audio { base, file } => {
                        let n = short_path(file.as_str());
                        (base, line_of("audio   │ ", n.as_str()), Ghost(n@))
                    },
                    SceneItem::Text { base, text, font_face, font_size, .. } => {
                        let mut d = new_doc("text    │ font:");
                        push_str(&mut d, font_face.as_str());
                        push_str(&mut d, " ");
                        push_num(&mut d, NumFmt::Display(*font_size));
                        push_str(&mut d, "px  \"");
                        push_str(&mut d, text_prefix(text.as_str()));
                        push_str(&mut d, "\"");
                        (base, d, Ghost(Seq::empty()))
                    },
                    SceneItem::Browser { base, url, .. } => {
                        (base, line_of("browser │ ", url.as_str()), Ghost(Seq::empty()))
                    },
                    SceneItem::Color { base, width, height, .. } => {
                        let mut d = new_doc("color   │ ");
                        push_num(&mut d, NumFmt::Display(*width));
                        push_str(&mut d, "×");
                        push_num(&mut d, NumFmt::Display(*height));
                        (base, d, Ghost(Seq::empty()))
                    },
                    SceneItem::Group { base, .. } => (base, Vec::new(), Ghost(Seq::empty())),
                };
                let ghost names: Seq<Seq<char>> = match item_view(*item) {
                    SceneItemView::Image { .. } | SceneItemView::Video { .. }
                    | SceneItemView::Gif { .. } | SceneItemView::Audio { .. } => seq![name@],
                    _ => seq![],
                };
                proof {
                    crate::doc::lemma_lit_concat("image   │ "@, name@);
                    crate::doc::lemma_lit_concat("video   │ "@, name@);
                    crate::doc::lemma_lit_concat("gif     │ "@, name@);
                    crate::doc::lemma_lit_concat("audio   │ "@, name@);
                    if item_view(*item) is Browser {
                        crate::doc::lemma_lit_concat("browser │ "@, item_view(*item)->url);
                    }
                }
                assert(names.len() > 0 ==> detail@ == item_detail(item_view(*item), names[0]));
                assert(names.len() == 0 ==> detail@ == item_detail(item_view(*item), name@));
                let mut line = line_head(base, depth);
                push_str(&mut line, "  ");
                push_doc(&mut line, &detail);
                push_str(&mut line, "  ");
                push_pos_info(&mut line, base);
                assert(base@ == base_of(item_view(*item)));
                self.log.push(line);
                assert(docs_view(self.log@) =~= before.push(line@));
                assert(docs_view(self.log@) =~= before + item_log(item_view(*item), depth as nat, names));
                Ghost(names)
            },
        }
    }

    fn log_items_rec(&mut self, items: &Vec<SceneItem>, depth: usize) -> (names: Ghost<Seq<Seq<char>>>)
        requires
            cut_ok_items(items_view(items@)),
            depth + total_items_items(items_view(items@)) < usize::MAX,
        ensures
            names@.len() == media_count_items(items_view(items@)),
            names_fit(media_files_items(items_view(items@)), names@),
            docs_view(final(self).log@) == docs_view(old(self).log@) + items_log(
                items_view(items@),
                depth as nat,
                names@,
            ),
            final(self).scenes == old(self).scenes,
            final(self).selected == old(self).selected,
            final(self).exporting == old(self).exporting,
            final(self).json_content == old(self).json_content,
        decreases items, 0nat,
    {
        let ghost start = docs_view(self.log@);
        let ghost mut names: Seq<Seq<char>> = seq![];
        let mut i: usize = 0;
        while i < items.len()
            invariant
                i <= items.len(),
                depth + total_items_items(items_view(items@)) < usize::MAX,
                cut_ok_items(items_view(items@)),
                names.len() == media_count_items(items_view(items@.take(i as int))),
                names_fit(media_files_items(items_view(items@.take(i as int))), names),
                docs_view(self.log@) == start + items_log(
                    items_view(items@.take(i as int)),
                    depth as nat,
                    names,
                ),
                self.scenes == old(self).scenes,
                self.selected == old(self).selected,
                self.exporting == old(self).exporting,
                self.json_content == old(self).json_content,
            decreases items.len() - i,
        {
            let ghost prev = items_view(items@.take(i as int));
            let ghost cur = items_view(items@.take(i + 1));
            proof {
                lemma_items_view_push(items@.take(i as int), items@[i as int]);
                assert(items@.take(i as int).push(items@[i as int]) =~= items@.take(i + 1));
                assert(cur.drop_last() =~= prev);
                crate::parser::lemma_items_view_index(items@, i as int);
                lemma_cut_ok_prefix(items_view(items@), i as int);
                lemma_total_items_elem(items_view(items@), i as int);
            }
            assert(decreases_to!(items => items@[i as int]));
            let ghost log_before = docs_view(self.log@);
            let item_names = self.log_item(&items[i], depth);
            proof {
                let all = names + item_names@;
                lemma_names_fit_concat(
                    media_files_items(prev),
                    names,
                    media_files(items_view(items@)[i as int]),
                    item_names@,
                );
                assert(media_files_items(cur) == media_files_items(prev) + media_files(
                    items_view(items@)[i as int],
                ));
                assert(all.take(names.len() as int) =~= names);
                assert(all.skip(names.len() as int) =~= item_names@);
                names = all;
            }
            i = i + 1;
        }
        assert(items@.take(items.len() as int) =~= items@);
        Ghost(names)
    }

    /// Appends the log lines of `items` at nesting `depth` (every text must
    /// be cuttable after 25 bytes, as the log shows at most that much of it).
    pub fn log_items(&mut self, items: &Vec<SceneItem>, depth: usize)
        requires
            cut_ok_items(items_view(items@)),
            depth + total_items_items(items_view(items@)) < usize::MAX,
        ensures
            exists|names: Seq<Seq<char>>|
                names.len() == media_count_items(items_view(items@)) && names_fit(
                    media_files_items(items_view(items@)),
                    names,
                ) && docs_view(final(self).log@) == docs_view(old(self).log@) + items_log(
                    items_view(items@),
                    depth as nat,
                    names,
                ),
            final(self).scenes == old(self).scenes,
            final(self).selected == old(self).selected,
            final(self).exporting == old(self).exporting,
            final(self).json_content == old(self).json_content,
    {
        let names = self.log_items_rec(items, depth);
        assert(docs_view(self.log@) == docs_view(old(self).log@) + items_log(items_view(items@), depth as nat, names@));
    }
}

/// The first lines of a scene's log: its name, its canvas, a blank line.
pub open spec fn scene_header(name: Seq<char>, canvas: crate::parser::Canvas) -> Seq<Seq<Token>> {
    seq![
        lit("── Cena: "@ + name + " ──────────────────────────"@),
        lit("   Canvas: "@) + seq![Token::Num(NumFmt::Display(canvas.x))] + lit("×"@) + seq![
            Token::Num(NumFmt::Display(canvas.y)),
        ],
        lit(""@),
    ]
}

fn loggable_count(items: &Vec<SceneItem>) -> (r: Option<usize>)
    ensures
        r matches Some(n) ==> cut_ok_items(items_view(items@)) && n == total_items_items(
            items_view(items@),
        ) && n < usize::MAX,
        r is None ==> !cut_ok_items(items_view(items@)) || total_items_items(items_view(items@))
            >= usize::MAX,
    decreases items,
{
    let mut total: usize = 0;
    let mut i: usize = 0;
    while i < items.len()
        invariant
            i <= items.len(),
            cut_ok_items(items_view(items@.take(i as int))),
            total == total_items_items(items_view(items@.take(i as int))),
            total < usize::MAX,
        decreases items.len() - i,
    {
        let ghost prev = items_view(items@.take(i as int));
        let ghost cur = items_view(items@.take(i + 1));
        let ghost all = items_view(items@);
        proof {
            lemma_items_view_push(items@.take(i as int), items@[i as int]);
            assert(items@.take(i as int).push(items@[i as int]) =~= items@.take(i + 1));
            assert(cur.drop_last() =~= prev);
            crate::parser::lemma_items_view_index(items@, i as int);
            crate::parser::lemma_items_view_len(items@.take(i + 1));
            crate::parser::lemma_items_view_index(items@.take(i + 1), i as int);
            lemma_total_items_elem(all, i as int);
        }
        let this: usize = match &items[i] {
            SceneItem::Text { text, .. } => {
                let t = text.as_str();
                if t.as_bytes().len() <= 25 || t.is_char_boundary(25) {
                    1
                } else {
                    proof {
                        lemma_not_cut_ok_prefix(all, i as int);
                    }
                    return None;
                }
            },
            SceneItem::Group { items: children, .. } => {
                assert(decreases_to!(items => items@[i as int]));
                match loggable_count(children) {
                    Some(n) => {
                        if n < usize::MAX - 1 {
                            n + 1
                        } else {
                            return None;
                        }
                    },
                    None => {
                        proof {
                            if !cut_ok_items(items_view(children@)) {
                                lemma_not_cut_ok_prefix(all, i as int);
                            }
                        }
                        return None;
                    },
                }
            },
            _ => 1,
        };
        assert(total_items(all[i as int]) == this);
        assert(cut_ok(all[i as int]));
        if total >= usize::MAX - this {
            proof {
                lemma_total_items_prefix(all, i as int);
                assert(items_view(items@.take(i + 1)) == cur);
                assert(items_view(items@).take(i + 1) =~= cur) by {
                    crate::parser::lemma_items_view_len(items@);
                    assert forall|k: int| 0 <= k < i + 1 implies #[trigger] cur[k] == all[k] by {
                        crate::parser::lemma_items_view_index(items@.take(i + 1), k);
                        crate::parser::lemma_items_view_index(items@, k);
                    }
                }
            }
            return None;
        }
        total = total + this;
        i = i + 1;
    }
    assert(items@.take(items.len() as int) =~= items@);
    Some(total)
}

/// Whether the log lines of these items can be written: every text can be cut
/// after 25 bytes, and the items can be counted.
pub fn loggable(items: &Vec<SceneItem>) -> (r: bool)
    ensures
        r == (cut_ok_items(items_view(items@)) && total_items_items(items_view(items@))
            < usize::MAX),
{
    loggable_count(items).is_some()
}

/// One item whose text cannot be cut makes the whole list uncuttable.
pub proof fn lemma_not_cut_ok_prefix(items: Seq<SceneItemView>, i: int)
    requires
        0 <= i < items.len(),
        !cut_ok(items[i]),
    ensures
        !cut_ok_items(items),
    decreases items.len(),
{
    if i < items.len() - 1 {
        lemma_not_cut_ok_prefix(items.drop_last(), i);
    }
}

/// The first items of a list count no more items than the whole list.
pub proof fn lemma_total_items_prefix(items: Seq<SceneItemView>, i: int)
    requires
        0 <= i < items.len(),
    ensures
        total_items_items(items.take(i + 1)) <= total_items_items(items),
    decreases items.len(),
{
    if i < items.len() - 1 {
        lemma_total_items_prefix(items.drop_last(), i);
        assert(items.drop_last().take(i + 1) =~= items.take(i + 1));
    } else {
        assert(items.take(i + 1) =~= items);
    }
}

impl App {
    /// Logs a parsed scene: its header, then one line per item.
    pub fn log_scene(&mut self, scene: &SceneData)
        requires
            cut_ok_items(items_view(scene.items@)),
            total_items_items(items_view(scene.items@)) < usize::MAX,
        ensures
            exists|names: Seq<Seq<char>>|
                names.len() == media_count_items(items_view(scene.items@)) && names_fit(
                    media_files_items(items_view(scene.items@)),
                    names,
                ) && docs_view(final(self).log@) == docs_view(old(self).log@) + scene_header(
                    scene.name@,
                    scene.canvas,
                ) + items_log(items_view(scene.items@), 0, names),
            final(self).scenes == old(self).scenes,
            final(self).selected == old(self).selected,
            final(self).exporting == old(self).exporting,
            final(self).json_content == old(self).json_content,
    {
        let ghost start = docs_view(self.log@);
        let first = line_of("── Cena: ", scene.name.as_str());
        let mut head = first;
        push_str(&mut head, " ──────────────────────────");
        proof {
            crate::doc::lemma_lit_concat("── Cena: "@ + scene.name@, " ──────────────────────────"@);
        }
        let mut canvas = new_doc("   Canvas: ");
        push_num(&mut canvas, NumFmt::Display(scene.canvas.x));
        push_str(&mut canvas, "×");
        push_num(&mut canvas, NumFmt::Display(scene.canvas.y));
        let blank = new_doc("");
        self.log.push(head);
        self.log.push(canvas);
        self.log.push(blank);
        assert(docs_view(self.log@) =~= start + scene_header(scene.name@, scene.canvas));
        self.log_items(&scene.items, 0);
    }

    /// Starts exporting the selected scene to `destination`: the log is
    /// cleared and says where the export goes, the export is marked as
    /// running, and the job is handed back. Nothing happens when no scene is
    /// selected or no collection is loaded.
    pub fn begin_export(&mut self, destination: &str) -> (r: Option<ExportJob>)
        requires
            old(self).wf(),
        ensures
            final(self).wf(),
            final(self).json_path == old(self).json_path,
            final(self).scenes == old(self).scenes,
            final(self).selected == old(self).selected,
            final(self).json_content == old(self).json_content,
            final(self).only_visible == old(self).only_visible,
            match (old(self).selected, old(self).json_content) {
                (Some(i), Some(c)) => (r matches Some(job) && job.scene_name@ == old(self).scenes@[i as int]@
                    && job.json_content@ == c@ && job.only_visible == old(self).only_visible)
                    && final(self).exporting && final(self).output_path is None
                    && docs_view(final(self).log@) == seq![
                    lit("→ Exportando cena: "@ + old(self).scenes@[i as int]@),
                    lit("  Destino: "@ + destination@),
                ],
                _ => r is None && final(self).log == old(self).log
                    && final(self).exporting == old(self).exporting
                    && final(self).output_path == old(self).output_path,
            },
    {
        let i = match self.selected {
            Some(i) => i,
            None => {
                return None;
            },
        };
        let scene_name = self.scenes[i].clone();
        let json_content = match &self.json_content {
            Some(c) => c.clone(),
            None => {
                return None;
            },
        };
        self.log = Vec::new();
        let l1 = line_of("→ Exportando cena: ", scene_name.as_str());
        let l2 = line_of("  Destino: ", destination);
        self.log.push(l1);
        self.log.push(l2);
        assert(docs_view(self.log@) =~= seq![l1@, l2@]);
        self.exporting = true;
        self.output_path = None;
        Some(ExportJob { scene_name, json_content, only_visible: self.only_visible })
    }

    /// Takes in a report of the export thread: a log line, or the end of the
    /// export with the folder it wrote.
    pub fn on_message(&mut self, msg: Msg)
        ensures
            final(self).scenes == old(self).scenes,
            final(self).selected == old(self).selected,
            final(self).json_content == old(self).json_content,
            match msg {
                Msg::Log(s) => docs_view(final(self).log@) == docs_view(old(self).log@).push(lit(s@))
                    && final(self).exporting == old(self).exporting && final(self).output_path
                    == old(self).output_path,
                Msg::Done { output_dir } => final(self).log == old(self).log
                    && !final(self).exporting && opt_view(final(self).output_path) == Some(output_dir@),
            },
    {
        match msg {
            Msg::Log(s) => {
                let line = new_doc(s.as_str());
                let ghost before = self.log@;
                self.log.push(line);
                assert(docs_view(self.log@) =~= docs_view(before).push(line@));
            },
            Msg::Done { output_dir } => {
                self.exporting = false;
                self.output_path = Some(output_dir);
            },
        }
    }
}

/// The report of how many items the scene has.
pub fn items_found_message(n: usize) -> (r: String)
    ensures
        r@ == "✓ "@ + nat_decimal(n as nat) + " itens encontrados"@,
{
    let mut s = String::from_str("✓ ");
    let d = usize_to_decimal(n);
    s.append(d.as_str());
    s.append(" itens encontrados");
    s
}

/// The closing report of an export whose media files ended up as `asset_map` says.
pub fn export_done_message(asset_map: &Vec<AssetEntry>) -> (r: String)
    ensures
        r@ == "✓ "@ + summary_text(
            copied_upto(assets_view(asset_map@), asset_map@.len()),
            missing_upto(assets_view(asset_map@), asset_map@.len()),
        ),
{
    let (copied, missing) = crate::assets::count_assets(asset_map);
    let summary = export_summary(copied, missing);
    let mut s = String::from_str("✓ ");
    s.append(summary.as_str());
    s
}

/// Every item of a cuttable list is cuttable.
pub proof fn lemma_cut_ok_prefix(items: Seq<SceneItemView>, i: int)
    requires
        cut_ok_items(items),
        0 <= i < items.len(),
    ensures
        cut_ok(items[i]),
    decreases items.len(),
{
    if i < items.len() - 1 {
        lemma_cut_ok_prefix(items.drop_last(), i);
    }
}

} // verus!
