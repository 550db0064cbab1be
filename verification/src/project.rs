//! The widget tree of a menu project file, read from its tokens by the lenient
//! recursive-descent reader of `MProjectParser`: unknown fields are passed over, a
//! missing brace or keyword is not required, a list cut off by the end of the tokens
//! ends there, and child lists nest at most 41 deep.
//!
//! Numbers with a fractional part (a widget's geometry, an interpolation section's
//! times and values) are kept as the text of their tokens; a reader that wants them as
//! numbers converts that text, an empty or malformed one reading as zero.
use vstd::prelude::*;
use vstd::string::StringExecFns;
use crate::text::str_eq;
use crate::ui::{after_expect, block_end, focus_after_keys, int_token, token_at, token_text, FocusState, MProjectParser, RGBA};

verus! {

/// The kind of a widget, with what the reader fills in for it.
#[allow(inconsistent_fields)]
pub enum WidgetKind {
    RootWindow,
    ColorFace { color: Vec<RGBA> },
    TextFace { text: String, font: String, color: RGBA, shadow: RGBA, shadow_value: i32, align: i32 },
    ImageFace { image_path: String },
    FrameImageFace { tl_image_path: String },
    SBox,
    VBox,
    HBox,
    FBox,
    Composite,
    ScrolledWindow,
    ScrollClip,
    VScrollbar,
    HScrollbar,
    ListBox,
    OptionMenu,
    ScaleBar,
    MBox,
    ToolTipFace,
    ProgressFace,
    SceneFace,
    MovieFace,
    IconBox,
    Unknown(String),
}

/// A widget of a project, with its children.
pub struct Widget {
    pub kind: WidgetKind,
    pub name: String,
    pub has_script: bool,
    pub is_component: bool,
    pub can_focus: bool,
    pub focus: bool,
    pub visible: bool,
    pub visible_condition: i32,
    pub visible_compare: i32,
    /// The x, y, width and height tokens of the geometry.
    pub geometry: (String, String, String, String),
    pub clip: bool,
    pub children: Vec<Widget>,
    pub packable: bool,
    pub pack_side: i32,
    pub pack_expand_x: bool,
    pub pack_expand_y: bool,
    pub pack_fill_x: bool,
    pub pack_fill_y: bool,
    pub pack_shrink_x: bool,
    pub pack_shrink_y: bool,
    pub pack_allocate_w: bool,
    pub pack_allocate_h: bool,
    pub is_face: bool,
}

/// A project: its name, flags and root windows.
pub struct MProject {
    pub name: String,
    pub has_script: bool,
    pub focus: bool,
    pub root_windows: Vec<Widget>,
}

/// An interpolation section: the tokens of its start duration, interpolation period,
/// start value and end value.
pub struct MScalarSection {
    pub start_duration: String,
    pub interp_period: String,
    pub start_value: String,
    pub end_value: String,
}

/// An animation of a widget: an interpolator, or one of another type.
pub enum ActorDef {
    ScalarInterpolator {
        name: String,
        attr: String,
        loop_count: i32,
        reverse: bool,
        initial_playing: bool,
        sections: Vec<MScalarSection>,
    },
    Unknown(String),
}

// ─── Views ───────────────────────────────────────────────────

/// `WidgetKind` with its texts as character sequences.
#[allow(inconsistent_fields)]
pub enum KindV {
    RootWindow,
    ColorFace { color: Seq<RGBA> },
    TextFace { text: Seq<char>, font: Seq<char>, color: RGBA, shadow: RGBA, shadow_value: i32, align: i32 },
    ImageFace { image_path: Seq<char> },
    FrameImageFace { tl_image_path: Seq<char> },
    SBox,
    VBox,
    HBox,
    FBox,
    Composite,
    ScrolledWindow,
    ScrollClip,
    VScrollbar,
    HScrollbar,
    ListBox,
    OptionMenu,
    ScaleBar,
    MBox,
    ToolTipFace,
    ProgressFace,
    SceneFace,
    MovieFace,
    IconBox,
    Unknown(Seq<char>),
}

/// `Widget` with its texts as character sequences.
pub struct WidgetV {
    pub kind: KindV,
    pub name: Seq<char>,
    pub has_script: bool,
    pub is_component: bool,
    pub can_focus: bool,
    pub focus: bool,
    pub visible: bool,
    pub visible_condition: i32,
    pub visible_compare: i32,
    pub geometry: (Seq<char>, Seq<char>, Seq<char>, Seq<char>),
    pub clip: bool,
    pub children: Seq<WidgetV>,
    pub packable: bool,
    pub pack_side: i32,
    pub pack_expand_x: bool,
    pub pack_expand_y: bool,
    pub pack_fill_x: bool,
    pub pack_fill_y: bool,
    pub pack_shrink_x: bool,
    pub pack_shrink_y: bool,
    pub pack_allocate_w: bool,
    pub pack_allocate_h: bool,
    pub is_face: bool,
}

/// An interpolation section's four tokens.
pub type SectionV = (Seq<char>, Seq<char>, Seq<char>, Seq<char>);

/// `ActorDef` with its texts as character sequences.
pub enum ActorV {
    ScalarInterpolator {
        name: Seq<char>,
        attr: Seq<char>,
        loop_count: i32,
        reverse: bool,
        initial_playing: bool,
        sections: Seq<SectionV>,
    },
    Unknown(Seq<char>),
}

/// The view of a kind.
pub open spec fn kind_view(k: WidgetKind) -> KindV {
    match k {
        WidgetKind::RootWindow => KindV::RootWindow,
        WidgetKind::ColorFace { color } => KindV::ColorFace { color: color@ },
        WidgetKind::TextFace { text, font, color, shadow, shadow_value, align } => KindV::TextFace {
            text: text@,
            font: font@,
            color,
            shadow,
            shadow_value,
            align,
        },
        WidgetKind::ImageFace { image_path } => KindV::ImageFace { image_path: image_path@ },
        WidgetKind::FrameImageFace { tl_image_path } => KindV::FrameImageFace {
            tl_image_path: tl_image_path@,
        },
        WidgetKind::SBox => KindV::SBox,
        WidgetKind::VBox => KindV::VBox,
        WidgetKind::HBox => KindV::HBox,
        WidgetKind::FBox => KindV::FBox,
        WidgetKind::Composite => KindV::Composite,
        WidgetKind::ScrolledWindow => KindV::ScrolledWindow,
        WidgetKind::ScrollClip => KindV::ScrollClip,
        WidgetKind::VScrollbar => KindV::VScrollbar,
        WidgetKind::HScrollbar => KindV::HScrollbar,
        WidgetKind::ListBox => KindV::ListBox,
        WidgetKind::OptionMenu => KindV::OptionMenu,
        WidgetKind::ScaleBar => KindV::ScaleBar,
        WidgetKind::MBox => KindV::MBox,
        WidgetKind::ToolTipFace => KindV::ToolTipFace,
        WidgetKind::ProgressFace => KindV::ProgressFace,
        WidgetKind::SceneFace => KindV::SceneFace,
        WidgetKind::MovieFace => KindV::MovieFace,
        WidgetKind::IconBox => KindV::IconBox,
        WidgetKind::Unknown(n) => KindV::Unknown(n@),
    }
}

/// The view of a widget and its subtree.
#[verifier::opaque]
pub open spec fn widget_view(w: Widget) -> WidgetV
    decreases w,
{
    WidgetV {
        kind: kind_view(w.kind),
        name: w.name@,
        has_script: w.has_script,
        is_component: w.is_component,
        can_focus: w.can_focus,
        focus: w.focus,
        visible: w.visible,
        visible_condition: w.visible_condition,
        visible_compare: w.visible_compare,
        geometry: (w.geometry.0@, w.geometry.1@, w.geometry.2@, w.geometry.3@),
        clip: w.clip,
        children: widgets_view(w.children@),
        packable: w.packable,
        pack_side: w.pack_side,
        pack_expand_x: w.pack_expand_x,
        pack_expand_y: w.pack_expand_y,
        pack_fill_x: w.pack_fill_x,
        pack_fill_y: w.pack_fill_y,
        pack_shrink_x: w.pack_shrink_x,
        pack_shrink_y: w.pack_shrink_y,
        pack_allocate_w: w.pack_allocate_w,
        pack_allocate_h: w.pack_allocate_h,
        is_face: w.is_face,
    }
}

/// The views of a list of widgets.
pub open spec fn widgets_view(ws: Seq<Widget>) -> Seq<WidgetV>
    decreases ws,
{
    if ws.len() == 0 {
        Seq::empty()
    } else {
        widgets_view(ws.drop_last()).push(widget_view(ws.last()))
    }
}

/// The views of a list of sections.
pub open spec fn sections_view(ss: Seq<MScalarSection>) -> Seq<SectionV> {
    ss.map_values(|s: MScalarSection| (s.start_duration@, s.interp_period@, s.start_value@, s.end_value@))
}

/// The view of an actor.
pub open spec fn actor_view(a: ActorDef) -> ActorV {
    match a {
        ActorDef::ScalarInterpolator { name, attr, loop_count, reverse, initial_playing, sections } =>
            ActorV::ScalarInterpolator {
            name: name@,
            attr: attr@,
            loop_count,
            reverse,
            initial_playing,
            sections: sections_view(sections@),
        },
        ActorDef::Unknown(n) => ActorV::Unknown(n@),
    }
}

// ─── What the reader makes of the tokens ─────────────────────

/// The kind a widget type name stands for, with its defaults.
pub open spec fn kind_of(n: Seq<char>) -> KindV {
    if n == "RootWindow"@ {
        KindV::RootWindow
    } else if n == "ColorFace"@ {
        KindV::ColorFace { color: Seq::empty() }
    } else if n == "TextFace"@ {
        KindV::TextFace {
            text: Seq::empty(),
            font: "default"@,
            color: RGBA { r: 200, g: 200, b: 200, a: 255 },
            shadow: RGBA { r: 0, g: 0, b: 0, a: 128 },
            shadow_value: 0,
            align: 3,
        }
    } else if n == "ImageFace"@ {
        KindV::ImageFace { image_path: Seq::empty() }
    } else if n == "FrameImageFace"@ {
        KindV::FrameImageFace { tl_image_path: Seq::empty() }
    } else if n == "SBox"@ {
        KindV::SBox
    } else if n == "VBox"@ {
        KindV::VBox
    } else if n == "HBox"@ {
        KindV::HBox
    } else if n == "FBox"@ {
        KindV::FBox
    } else if n == "Composite"@ {
        KindV::Composite
    } else if n == "ScrolledWindow"@ {
        KindV::ScrolledWindow
    } else if n == "ScrollClip"@ {
        KindV::ScrollClip
    } else if n == "VScrollbar"@ {
        KindV::VScrollbar
    } else if n == "HScrollbar"@ {
        KindV::HScrollbar
    } else if n == "ListBox"@ {
        KindV::ListBox
    } else if n == "OptionMenu"@ {
        KindV::OptionMenu
    } else if n == "ScaleBar"@ {
        KindV::ScaleBar
    } else if n == "MBox"@ {
        KindV::MBox
    } else if n == "ToolTipFace"@ {
        KindV::ToolTipFace
    } else if n == "ProgressFace"@ {
        KindV::ProgressFace
    } else if n == "SceneFace"@ {
        KindV::SceneFace
    } else if n == "MovieFace"@ {
        KindV::MovieFace
    } else if n == "IconBox"@ {
        KindV::IconBox
    } else {
        KindV::Unknown(n)
    }
}

/// A widget of kind `k` before any of its fields is read.
pub open spec fn default_widget(k: KindV) -> WidgetV {
    WidgetV {
        kind: k,
        name: Seq::empty(),
        has_script: false,
        is_component: false,
        can_focus: false,
        focus: false,
        visible: true,
        visible_condition: 0,
        visible_compare: 0,
        geometry: (Seq::empty(), Seq::empty(), Seq::empty(), Seq::empty()),
        clip: false,
        children: Seq::empty(),
        packable: false,
        pack_side: 0,
        pack_expand_x: false,
        pack_expand_y: false,
        pack_fill_x: false,
        pack_fill_y: false,
        pack_shrink_x: false,
        pack_shrink_y: false,
        pack_allocate_w: true,
        pack_allocate_h: true,
        is_face: false,
    }
}

/// The fields whose value is a flag (an integer, nonzero for set).
pub open spec fn flag_field(f: Seq<char>) -> bool {
    ||| f == "is_component"@
    ||| f == "can_focus"@
    ||| f == "focus"@
    ||| f == "visible"@
    ||| f == "clip"@
    ||| f == "is_face"@
    ||| f == "packable"@
    ||| f == "pack_expand_x"@
    ||| f == "pack_expand_y"@
    ||| f == "pack_fill_x"@
    ||| f == "pack_fill_y"@
    ||| f == "pack_shrink_x"@
    ||| f == "pack_shrink_y"@
    ||| f == "pack_allocate_w"@
    ||| f == "pack_allocate_h"@
    ||| f == "multiline"@
    ||| f == "adjust_scale"@
    ||| f == "num_proportional"@
    ||| f == "keep_scroll_point"@
    ||| f == "adjust_popup_size"@
    ||| f == "use_sync_timer"@
}

/// `w` with the flag field `f` set to `b` (fields the widget does not keep are
/// passed over).
#[verifier::opaque]
pub open spec fn set_flag(w: WidgetV, f: Seq<char>, b: bool) -> WidgetV {
    WidgetV {
        is_component: if f == "is_component"@ { b } else { w.is_component },
        can_focus: if f == "can_focus"@ { b } else { w.can_focus },
        focus: if f == "focus"@ { b } else { w.focus },
        visible: if f == "visible"@ { b } else { w.visible },
        clip: if f == "clip"@ { b } else { w.clip },
        is_face: if f == "is_face"@ { b } else { w.is_face },
        packable: if f == "packable"@ { b } else { w.packable },
        pack_expand_x: if f == "pack_expand_x"@ { b } else { w.pack_expand_x },
        pack_expand_y: if f == "pack_expand_y"@ { b } else { w.pack_expand_y },
        pack_fill_x: if f == "pack_fill_x"@ { b } else { w.pack_fill_x },
        pack_fill_y: if f == "pack_fill_y"@ { b } else { w.pack_fill_y },
        pack_shrink_x: if f == "pack_shrink_x"@ { b } else { w.pack_shrink_x },
        pack_shrink_y: if f == "pack_shrink_y"@ { b } else { w.pack_shrink_y },
        pack_allocate_w: if f == "pack_allocate_w"@ { b } else { w.pack_allocate_w },
        pack_allocate_h: if f == "pack_allocate_h"@ { b } else { w.pack_allocate_h },
        ..w
    }
}

/// The fields whose value is an integer.
pub open spec fn number_field(f: Seq<char>) -> bool {
    ||| f == "visible_condition"@
    ||| f == "visible_compare"@
    ||| f == "pack_side"@
    ||| f == "shadow_value"@
    ||| f == "align"@
    ||| f == "display_policy"@
    ||| f == "loop_count"@
    ||| f == "h_magnify"@
    ||| f == "v_magnify"@
    ||| f == "value"@
}

/// `w` with the integer field `f` set to `v`; the shadow value and alignment belong to
/// a text face.
#[verifier::opaque]
pub open spec fn set_number(w: WidgetV, f: Seq<char>, v: i32) -> WidgetV {
    WidgetV {
        visible_condition: if f == "visible_condition"@ { v } else { w.visible_condition },
        visible_compare: if f == "visible_compare"@ { v } else { w.visible_compare },
        pack_side: if f == "pack_side"@ { v } else { w.pack_side },
        kind: match w.kind {
            KindV::TextFace { text, font, color, shadow, shadow_value, align } => KindV::TextFace {
                text,
                font,
                color,
                shadow,
                shadow_value: if f == "shadow_value"@ { v } else { shadow_value },
                align: if f == "align"@ { v } else { align },
            },
            k => k,
        },
        ..w
    }
}

/// The fields whose value is one text token.
pub open spec fn text_field_name(f: Seq<char>) -> bool {
    ||| f == "text"@
    ||| f == "font"@
    ||| f == "key"@
    ||| f == "localized_text_page"@
    ||| f == "image_path"@
    ||| f == "tl_image_path"@
    ||| f == "r_image_path"@
    ||| f == "blend_func_name"@
    ||| f == "increase_mode_name"@
    ||| f == "ease_type_name"@
    ||| f == "attribute_name"@
    ||| f == "focus_enter_action_name"@
    ||| f == "focus_leave_action_name"@
}

/// `w` with the text field `f` set to `t`: the text and font of a text face, the image
/// of an image face or the top-left image of a frame image face.
#[verifier::opaque]
pub open spec fn set_text(w: WidgetV, f: Seq<char>, t: Seq<char>) -> WidgetV {
    WidgetV {
        kind: match w.kind {
            KindV::TextFace { text, font, color, shadow, shadow_value, align } => if f == "text"@ {
                KindV::TextFace { text: t, font, color, shadow, shadow_value, align }
            } else if f == "font"@ {
                KindV::TextFace { text, font: t, color, shadow, shadow_value, align }
            } else {
                KindV::TextFace { text, font, color, shadow, shadow_value, align }
            },
            KindV::ImageFace { image_path } => KindV::ImageFace {
                image_path: if f == "image_path"@ { t } else { image_path },
            },
            KindV::FrameImageFace { tl_image_path } => KindV::FrameImageFace {
                tl_image_path: if f == "image_path"@ || f == "tl_image_path"@ { t } else { tl_image_path },
            },
            k => k,
        },
        ..w
    }
}

/// The fields whose block is passed over.
pub open spec fn skipped_field(f: Seq<char>) -> bool {
    ||| f == "section"@
    ||| f == "color_divide"@
    ||| f == "y_divide"@
    ||| f == "is_divide_color"@
    ||| f == "opacity"@
    ||| f == "scale_x"@
    ||| f == "scale_y"@
    ||| f == "pack_alignment_x"@
    ||| f == "pack_alignment_y"@
    ||| f == "pack_pad_left"@
    ||| f == "pack_pad_right"@
    ||| f == "pack_pad_top"@
    ||| f == "pack_pad_bottom"@
    ||| f == "inner_pad_left"@
    ||| f == "inner_pad_right"@
    ||| f == "inner_pad_top"@
    ||| f == "inner_pad_bottom"@
    ||| f == "frame_width"@
    ||| f == "frame_height"@
    ||| f == "cursor_align_x"@
    ||| f == "cursor_align_y"@
    ||| f == "x_alignment"@
    ||| f == "y_alignment"@
    ||| f == "round"@
    ||| f == "start_duration"@
    ||| f == "interpolation_period"@
    ||| f == "start_value"@
    ||| f == "end_value"@
}

/// The colour `RGBA { r g b a }` read at `p`, and the position after it.
pub open spec fn rgba_at(ts: Seq<Seq<char>>, p: int) -> (RGBA, int) {
    let p1 = after_expect(ts, p, "RGBA"@);
    let p2 = after_expect(ts, p1, "{"@);
    (
        RGBA {
            r: int_token(ts, p2) as u8,
            g: int_token(ts, p2 + 1) as u8,
            b: int_token(ts, p2 + 2) as u8,
            a: int_token(ts, p2 + 3) as u8,
        },
        after_expect(ts, p2 + 4, "}"@),
    )
}

/// The position after the header `[ n ] {` of a list, read from `p`.
pub open spec fn list_open(ts: Seq<Seq<char>>, p: int) -> int {
    let q1 = after_expect(ts, p, "["@);
    let q3 = after_expect(ts, q1 + 1, "]"@);
    after_expect(ts, q3, "{"@)
}

/// The colours of a list read from `p` up to its closing brace (or the end of the
/// tokens), and the position of that brace.
pub open spec fn colors_from(ts: Seq<Seq<char>>, p: int) -> (Seq<RGBA>, int)
    decreases (if p < ts.len() { ts.len() - p } else { 0 }),
{
    if 0 <= p < ts.len() && ts[p] != "}"@ {
        let (c, q) = rgba_at(ts, p);
        let rest = colors_from(ts, q);
        (seq![c] + rest.0, rest.1)
    } else {
        (Seq::empty(), p)
    }
}

/// The fields of a section read from `p` into `s`, and the position of its closing
/// brace (or the end of the tokens).
pub open spec fn section_fields(ts: Seq<Seq<char>>, p: int, s: SectionV) -> (SectionV, int)
    decreases (if p < ts.len() { ts.len() - p } else { 0 }),
{
    if 0 <= p < ts.len() && ts[p] != "}"@ {
        let k = ts[p];
        let q1 = after_expect(ts, p + 1, "float"@);
        let (s2, next) = if k == "start_duration"@ {
            ((token_text(ts, q1), s.1, s.2, s.3), q1 + 1)
        } else if k == "interpolation_period"@ {
            ((s.0, token_text(ts, q1), s.2, s.3), q1 + 1)
        } else if k == "start_value"@ {
            ((s.0, s.1, token_text(ts, q1), s.3), q1 + 1)
        } else if k == "end_value"@ {
            ((s.0, s.1, s.2, token_text(ts, q1)), q1 + 1)
        } else {
            (s, block_end(ts, p + 1, 1))
        };
        proof {
            lemma_block_end_ge(ts, p + 1, 1);
        }
        section_fields(ts, next, s2)
    } else {
        (s, p)
    }
}

/// The sections of a list read from `p` up to its closing brace (or the end of the
/// tokens), and the position of that brace.
pub open spec fn sections_from(ts: Seq<Seq<char>>, p: int) -> (Seq<SectionV>, int)
    decreases (if p < ts.len() { ts.len() - p } else { 0 }),
{
    if 0 <= p < ts.len() && ts[p] != "}"@ {
        let q = after_expect(ts, p + 1, "{"@);
        let (s, q2) = section_fields(ts, q, (Seq::empty(), Seq::empty(), Seq::empty(), Seq::empty()));
        let q3 = after_expect(ts, q2, "}"@);
        proof {
            lemma_section_fields_ge(ts, q, (Seq::empty(), Seq::empty(), Seq::empty(), Seq::empty()));
        }
        let rest = sections_from(ts, q3);
        (seq![s] + rest.0, rest.1)
    } else {
        (Seq::empty(), p)
    }
}

/// `a` after the key at `p` of an interpolator, and the position after that key: its
/// name, attribute, loop count, reverse and initial playing flags, or sections, which add
/// to those read before; any other key's block is passed over.
pub open spec fn actor_key_step(ts: Seq<Seq<char>>, p: int, a: ActorV) -> (ActorV, int) {
    let k = token_text(ts, p);
    let q = p + 1;
    match a {
        ActorV::ScalarInterpolator { name, attr, loop_count, reverse, initial_playing, sections } => {
            if k == "name"@ {
                let q1 = after_expect(ts, q, "string"@);
                (ActorV::ScalarInterpolator { name: token_text(ts, q1), attr, loop_count, reverse, initial_playing, sections }, q1 + 1)
            } else if k == "attr"@ {
                let q1 = after_expect(ts, q, "string"@);
                (ActorV::ScalarInterpolator { name, attr: token_text(ts, q1), loop_count, reverse, initial_playing, sections }, q1 + 1)
            } else if k == "loop_count"@ {
                let q1 = after_expect(ts, q, "digit"@);
                (ActorV::ScalarInterpolator { name, attr, loop_count: int_token(ts, q1), reverse, initial_playing, sections }, q1 + 1)
            } else if k == "reverse"@ {
                let q1 = after_expect(ts, q, "digit"@);
                (ActorV::ScalarInterpolator { name, attr, loop_count, reverse: int_token(ts, q1) != 0, initial_playing, sections }, q1 + 1)
            } else if k == "initial_playing"@ {
                let q1 = after_expect(ts, q, "digit"@);
                (ActorV::ScalarInterpolator { name, attr, loop_count, reverse, initial_playing: int_token(ts, q1) != 0, sections }, q1 + 1)
            } else if k == "sections"@ {
                let q4 = list_open(ts, q);
                let (ss, q5) = sections_from(ts, q4);
                (ActorV::ScalarInterpolator { name, attr, loop_count, reverse, initial_playing, sections: sections + ss }, after_expect(ts, q5, "}"@))
            } else {
                (a, block_end(ts, q, 1))
            }
        },
        ActorV::Unknown(_) => (a, block_end(ts, q, 1)),
    }
}

/// The keys of an interpolator read from `p` into `a` (see `actor_key_step`), and the
/// position of its closing brace (or the end of the tokens).
pub open spec fn actor_keys(ts: Seq<Seq<char>>, p: int, a: ActorV) -> (ActorV, int)
    decreases (if p < ts.len() { ts.len() - p } else { 0 }),
{
    if 0 <= p < ts.len() && ts[p] != "}"@ {
        proof {
            lemma_actor_key_step_gt(ts, p, a);
        }
        let (a2, next) = actor_key_step(ts, p, a);
        actor_keys(ts, next, a2)
    } else {
        (a, p)
    }
}

/// An interpolator before any of its keys is read.
pub open spec fn empty_interpolator() -> ActorV {
    ActorV::ScalarInterpolator {
        name: Seq::empty(),
        attr: Seq::empty(),
        loop_count: 0,
        reverse: false,
        initial_playing: false,
        sections: Seq::empty(),
    }
}

/// The actor read at `p` and the position after it: the keys of an interpolator, or
/// the block of any other type passed over.
pub open spec fn actor_at(ts: Seq<Seq<char>>, p: int) -> (ActorV, int) {
    let t = token_text(ts, p);
    let q = after_expect(ts, p + 1, "{"@);
    if t == "ScalarInterpolator"@ || t == "MColorInterpolator"@ {
        let (a, q2) = actor_keys(ts, q, empty_interpolator());
        (a, after_expect(ts, q2, "}"@))
    } else {
        (ActorV::Unknown(t), after_expect(ts, block_end(ts, q, 1), "}"@))
    }
}

/// The position of the closing brace of an actor list read from `p` (or the end of the
/// tokens).
pub open spec fn actors_end(ts: Seq<Seq<char>>, p: int) -> int
    decreases (if p < ts.len() { ts.len() - p } else { 0 }),
{
    if 0 <= p < ts.len() && ts[p] != "}"@ {
        proof {
            lemma_actor_at_gt(ts, p);
        }
        actors_end(ts, actor_at(ts, p).1)
    } else {
        p
    }
}

/// The widget read at `p` at nesting `d`, and the position after it.
pub open spec fn widget_at(ts: Seq<Seq<char>>, p: int, d: int) -> (WidgetV, int)
    decreases (if p < ts.len() { ts.len() - p } else { 0 }), 2int,
{
    let q = after_expect(ts, p + 1, "{"@);
    fields_from(ts, q, d, default_widget(kind_of(token_text(ts, p))))
}

/// The fields read from `p` into `w` up to the widget's closing brace, and the position
/// after that brace (or the end of the tokens).
pub open spec fn fields_from(ts: Seq<Seq<char>>, p: int, d: int, w: WidgetV) -> (WidgetV, int)
    decreases (if p < ts.len() { ts.len() - p } else { 0 }), 1int,
{
    if 0 <= p < ts.len() {
        if ts[p] == "}"@ {
            (w, p + 1)
        } else {
            let (w2, q) = field_at(ts, p, d, w);
            fields_from(ts, if q > p { q } else { p + 1 }, d, w2)
        }
    } else {
        (w, p)
    }
}

/// The fields that hold one value: the name, the script flag, the flags, integers and
/// texts, and the geometry.
pub open spec fn value_field(f: Seq<char>) -> bool {
    f == "name"@ || f == "has_script"@ || flag_field(f) || number_field(f) || f == "geometry"@
        || text_field_name(f)
}

/// `w` after the value field `f` whose value starts at `q`, and the position after it.
pub open spec fn value_field_at(ts: Seq<Seq<char>>, f: Seq<char>, q: int, w: WidgetV) -> (WidgetV, int) {
    if f == "name"@ {
        (WidgetV { name: token_text(ts, q), ..w }, q + 1)
    } else if f == "has_script"@ {
        let q2 = after_expect(ts, after_expect(ts, q, "digit"@), "{"@);
        (WidgetV { has_script: int_token(ts, q2) != 0, ..w }, after_expect(ts, q2 + 1, "}"@))
    } else if flag_field(f) {
        (set_flag(w, f, int_token(ts, q) != 0), after_expect(ts, q + 1, "}"@))
    } else if number_field(f) {
        (set_number(w, f, int_token(ts, q)), after_expect(ts, q + 1, "}"@))
    } else if f == "geometry"@ {
        let q2 = after_expect(ts, after_expect(ts, q, "rectangle"@), "{"@);
        (
            WidgetV {
                geometry: (token_text(ts, q2), token_text(ts, q2 + 1), token_text(ts, q2 + 2), token_text(ts, q2 + 3)),
                ..w
            },
            after_expect(ts, q2 + 4, "}"@),
        )
    } else {
        (set_text(w, f, token_text(ts, q)), q + 1)
    }
}

/// The fields that hold colours of a face.
pub open spec fn colour_field(f: Seq<char>) -> bool {
    f == "color"@ || f == "text_color"@ || f == "shadow_color"@
}

/// `w` after the colour field `f` whose value starts at `q`, and the position after it:
/// the colour list of a colour face, or the text or shadow colour of a text face.
pub open spec fn colour_field_at(ts: Seq<Seq<char>>, f: Seq<char>, q: int, w: WidgetV) -> (WidgetV, int) {
    if f == "color"@ {
        let (cs, q5) = colors_from(ts, list_open(ts, q));
        let w2 = match w.kind {
            KindV::ColorFace { .. } => WidgetV { kind: KindV::ColorFace { color: cs }, ..w },
            _ => w,
        };
        (w2, after_expect(ts, q5, "}"@))
    } else {
        let (c, q2) = rgba_at(ts, q);
        let w2 = match w.kind {
            KindV::TextFace { text, font, color, shadow, shadow_value, align } => WidgetV {
                kind: if f == "text_color"@ {
                    KindV::TextFace { text, font, color: c, shadow, shadow_value, align }
                } else {
                    KindV::TextFace { text, font, color, shadow: c, shadow_value, align }
                },
                ..w
            },
            _ => w,
        };
        (w2, q2)
    }
}

/// The position after the field `f` whose value starts at `q`, for a field that leaves
/// the widget as it is: the actor list, a passed-over block, a navigation region, or an
/// unknown field (whose name alone is read).
pub open spec fn passed_field_end(ts: Seq<Seq<char>>, f: Seq<char>, q: int) -> int {
    if f == "actor_list"@ {
        after_expect(ts, actors_end(ts, list_open(ts, q)), "}"@)
    } else if skipped_field(f) {
        block_end(ts, q, 1)
    } else if f == "navigate_source"@ || f == "navigate_target"@ {
        let q2 = after_expect(ts, after_expect(ts, q, "region"@), "{"@);
        after_expect(ts, q2 + 4, "}"@)
    } else {
        q
    }
}

/// `w` after the field at `p` (at nesting `d`), and the position after the field: a
/// child list replaces the children (unread past nesting 40), and the other fields are
/// read as `value_field_at`, `colour_field_at` and `passed_field_end` say.
pub open spec fn field_at(ts: Seq<Seq<char>>, p: int, d: int, w: WidgetV) -> (WidgetV, int)
    decreases (if p < ts.len() { ts.len() - p } else { 0 }), 0int,
{
    if !(0 <= p < ts.len()) {
        (w, p)
    } else {
        let f = ts[p];
        let q = p + 1;
        if f == "children"@ {
            let q4 = list_open(ts, q);
            let (cs, q5) = if d > 40 {
                (Seq::empty(), q4)
            } else {
                widgets_from(ts, q4, d + 1)
            };
            (WidgetV { children: cs, ..w }, after_expect(ts, q5, "}"@))
        } else if value_field(f) {
            value_field_at(ts, f, q, w)
        } else if colour_field(f) {
            colour_field_at(ts, f, q, w)
        } else {
            (w, passed_field_end(ts, f, q))
        }
    }
}

/// The widgets of a child list read from `p` at nesting `d` up to its closing brace,
/// and the position of that brace (or the end of the tokens).
pub open spec fn widgets_from(ts: Seq<Seq<char>>, p: int, d: int) -> (Seq<WidgetV>, int)
    decreases (if p < ts.len() { ts.len() - p } else { 0 }), 3int,
{
    if 0 <= p < ts.len() && ts[p] != "}"@ {
        let (w, q) = widget_at(ts, p, d);
        let rest = widgets_from(ts, if q > p { q } else { p + 1 }, d);
        (seq![w] + rest.0, rest.1)
    } else {
        (Seq::empty(), p)
    }
}

/// A passed-over block ends at or after where it starts, and not past the end of the
/// tokens unless it starts there.
pub proof fn lemma_block_end_ge(ts: Seq<Seq<char>>, p: int, d: int)
    ensures
        block_end(ts, p, d) >= p,
        block_end(ts, p, d) <= (if p > ts.len() { p } else { ts.len() as int }),
    decreases ts.len() - p,
{
    if !(d <= 0 || p >= ts.len() || p < 0) {
        if ts[p] == "{"@ {
            lemma_block_end_ge(ts, p + 1, d + 1);
        } else if ts[p] == "}"@ {
            lemma_block_end_ge(ts, p + 1, d - 1);
        } else {
            lemma_block_end_ge(ts, p + 1, d);
        }
    }
}

/// Reading a section's fields never goes back.
pub proof fn lemma_section_fields_ge(ts: Seq<Seq<char>>, p: int, s: SectionV)
    ensures
        section_fields(ts, p, s).1 >= p,
    decreases (if p < ts.len() { ts.len() - p } else { 0 }),
{
    if 0 <= p < ts.len() && ts[p] != "}"@ {
        let k = ts[p];
        let q1 = after_expect(ts, p + 1, "float"@);
        lemma_block_end_ge(ts, p + 1, 1);
        let (s2, next) = if k == "start_duration"@ {
            ((token_text(ts, q1), s.1, s.2, s.3), q1 + 1)
        } else if k == "interpolation_period"@ {
            ((s.0, token_text(ts, q1), s.2, s.3), q1 + 1)
        } else if k == "start_value"@ {
            ((s.0, s.1, token_text(ts, q1), s.3), q1 + 1)
        } else if k == "end_value"@ {
            ((s.0, s.1, s.2, token_text(ts, q1)), q1 + 1)
        } else {
            (s, block_end(ts, p + 1, 1))
        };
        lemma_section_fields_ge(ts, next, s2);
    }
}

/// Reading sections never goes back.
pub proof fn lemma_sections_from_ge(ts: Seq<Seq<char>>, p: int)
    ensures
        sections_from(ts, p).1 >= p,
    decreases (if p < ts.len() { ts.len() - p } else { 0 }),
{
    if 0 <= p < ts.len() && ts[p] != "}"@ {
        let q = after_expect(ts, p + 1, "{"@);
        let e = (Seq::<char>::empty(), Seq::<char>::empty(), Seq::<char>::empty(), Seq::<char>::empty());
        lemma_section_fields_ge(ts, q, e);
        let q3 = after_expect(ts, section_fields(ts, q, e).1, "}"@);
        lemma_sections_from_ge(ts, q3);
    }
}

/// Reading an interpolator key always moves on.
pub proof fn lemma_actor_key_step_gt(ts: Seq<Seq<char>>, p: int, a: ActorV)
    ensures
        p < actor_key_step(ts, p, a).1,
{
    lemma_block_end_ge(ts, p + 1, 1);
    lemma_sections_from_ge(ts, list_open(ts, p + 1));
}

/// Reading an interpolator's keys never goes back.
pub proof fn lemma_actor_keys_ge(ts: Seq<Seq<char>>, p: int, a: ActorV)
    ensures
        actor_keys(ts, p, a).1 >= p,
    decreases (if p < ts.len() { ts.len() - p } else { 0 }),
{
    if 0 <= p < ts.len() && ts[p] != "}"@ {
        lemma_actor_key_step_gt(ts, p, a);
        let (a2, next) = actor_key_step(ts, p, a);
        lemma_actor_keys_ge(ts, next, a2);
    }
}

/// Reading an actor always moves on.
pub proof fn lemma_actor_at_gt(ts: Seq<Seq<char>>, p: int)
    ensures
        actor_at(ts, p).1 > p,
{
    let q = after_expect(ts, p + 1, "{"@);
    lemma_actor_keys_ge(ts, q, empty_interpolator());
    lemma_block_end_ge(ts, q, 1);
}

/// `MProject` with its texts as character sequences.
pub struct ProjectV {
    pub name: Seq<char>,
    pub has_script: bool,
    pub focus: bool,
    pub root_windows: Seq<WidgetV>,
}

/// The view of a project.
pub open spec fn project_view(p: MProject) -> ProjectV {
    ProjectV {
        name: p.name@,
        has_script: p.has_script,
        focus: p.focus,
        root_windows: widgets_view(p.root_windows@),
    }
}

/// A project before any of its fields is read.
pub open spec fn empty_project() -> ProjectV {
    ProjectV { name: Seq::empty(), has_script: false, focus: false, root_windows: Seq::empty() }
}

/// `pr` after the project field `t` whose value starts at `q` (at nesting `d`), and the
/// position after it: the name, the script and focus flags, the root windows (a child
/// list, which replaces those read before), a component widget (read and dropped), or
/// an unknown field (whose name alone is read).
pub open spec fn project_field(ts: Seq<Seq<char>>, t: Seq<char>, q: int, d: int, pr: ProjectV) -> (ProjectV, int) {
    if t == "name"@ {
        (ProjectV { name: token_text(ts, q), ..pr }, q + 1)
    } else if t == "has_script"@ {
        let q2 = after_expect(ts, after_expect(ts, q, "digit"@), "{"@);
        (ProjectV { has_script: int_token(ts, q2) != 0, ..pr }, after_expect(ts, q2 + 1, "}"@))
    } else if t == "focus"@ {
        let q2 = after_expect(ts, after_expect(ts, q, "digit"@), "{"@);
        (ProjectV { focus: int_token(ts, q2) != 0, ..pr }, after_expect(ts, q2 + 1, "}"@))
    } else if t == "children"@ {
        let q4 = list_open(ts, q);
        let (cs, q5) = if d > 40 {
            (Seq::empty(), q4)
        } else {
            widgets_from(ts, q4, d + 1)
        };
        (ProjectV { root_windows: cs, ..pr }, after_expect(ts, q5, "}"@))
    } else if t == "project_component"@ {
        (pr, widget_at(ts, q, d).1)
    } else {
        (pr, q)
    }
}

/// The project fields read from `p` into `pr` up to the project's closing brace, and
/// the position after that brace (or the end of the tokens).
pub open spec fn project_fields(ts: Seq<Seq<char>>, p: int, d: int, pr: ProjectV) -> (ProjectV, int)
    decreases (if p < ts.len() { ts.len() - p } else { 0 }),
{
    if 0 <= p < ts.len() {
        if ts[p] == "}"@ {
            (pr, p + 1)
        } else {
            let (pr2, next) = project_field(ts, ts[p], p + 1, d, pr);
            project_fields(ts, if next > p { next } else { p + 1 }, d, pr2)
        }
    } else {
        (pr, p)
    }
}

/// The project read at `p` at nesting `d` (`Project {` then its fields), and the
/// position after it.
pub open spec fn project_at(ts: Seq<Seq<char>>, p: int, d: int) -> (ProjectV, int) {
    project_fields(ts, after_expect(ts, after_expect(ts, p, "Project"@), "{"@), d, empty_project())
}

/// The names of the widgets that take the focus in the subtree of `w`, in pre-order: a
/// widget that can focus, an option menu or a list box.
pub open spec fn focus_names_of(w: WidgetV) -> Seq<Seq<char>>
    decreases w,
{
    let own = if w.can_focus || w.kind is OptionMenu || w.kind is ListBox {
        seq![w.name]
    } else {
        Seq::empty()
    };
    own + focus_names_in(w.children)
}

/// The names of the widgets that take the focus in a list of subtrees, in order.
pub open spec fn focus_names_in(ws: Seq<WidgetV>) -> Seq<Seq<char>>
    decreases ws,
{
    if ws.len() == 0 {
        Seq::empty()
    } else {
        focus_names_in(ws.drop_last()) + focus_names_of(ws.last())
    }
}

// ─── The reader ──────────────────────────────────────────────

/// There are few enough tokens for a position a little past their end, and the brace
/// depth of a passed-over block, to be counted without overflow.
pub open spec fn room(ts: Seq<Seq<char>>) -> bool {
    ts.len() + 64 < i32::MAX
}

/// The kind for a widget type name (see `kind_of`).
pub fn type_to_kind(n: &str) -> (k: WidgetKind)
    ensures
        kind_view(k) == kind_of(n@),
{
    if str_eq(n, "RootWindow") {
        WidgetKind::RootWindow
    } else if str_eq(n, "ColorFace") {
        WidgetKind::ColorFace { color: Vec::new() }
    } else if str_eq(n, "TextFace") {
        WidgetKind::TextFace {
            text: String::new(),
            font: String::from_str("default"),
            color: RGBA { r: 200, g: 200, b: 200, a: 255 },
            shadow: RGBA { r: 0, g: 0, b: 0, a: 128 },
            shadow_value: 0,
            align: 3,
        }
    } else if str_eq(n, "ImageFace") {
        WidgetKind::ImageFace { image_path: String::new() }
    } else if str_eq(n, "FrameImageFace") {
        WidgetKind::FrameImageFace { tl_image_path: String::new() }
    } else if str_eq(n, "SBox") {
        WidgetKind::SBox
    } else if str_eq(n, "VBox") {
        WidgetKind::VBox
    } else if str_eq(n, "HBox") {
        WidgetKind::HBox
    } else if str_eq(n, "FBox") {
        WidgetKind::FBox
    } else if str_eq(n, "Composite") {
        WidgetKind::Composite
    } else if str_eq(n, "ScrolledWindow") {
        WidgetKind::ScrolledWindow
    } else if str_eq(n, "ScrollClip") {
        WidgetKind::ScrollClip
    } else if str_eq(n, "VScrollbar") {
        WidgetKind::VScrollbar
    } else if str_eq(n, "HScrollbar") {
        WidgetKind::HScrollbar
    } else if str_eq(n, "ListBox") {
        WidgetKind::ListBox
    } else if str_eq(n, "OptionMenu") {
        WidgetKind::OptionMenu
    } else if str_eq(n, "ScaleBar") {
        WidgetKind::ScaleBar
    } else if str_eq(n, "MBox") {
        WidgetKind::MBox
    } else if str_eq(n, "ToolTipFace") {
        WidgetKind::ToolTipFace
    } else if str_eq(n, "ProgressFace") {
        WidgetKind::ProgressFace
    } else if str_eq(n, "SceneFace") {
        WidgetKind::SceneFace
    } else if str_eq(n, "MovieFace") {
        WidgetKind::MovieFace
    } else if str_eq(n, "IconBox") {
        WidgetKind::IconBox
    } else {
        WidgetKind::Unknown(String::from_str(n))
    }
}

/// `flag_field` for a name in hand.
fn is_flag_field(f: &str) -> (r: bool)
    ensures
        r == flag_field(f@),
{
    str_eq(f, "is_component")
        || str_eq(f, "can_focus")
        || str_eq(f, "focus")
        || str_eq(f, "visible")
        || str_eq(f, "clip")
        || str_eq(f, "is_face")
        || str_eq(f, "packable")
        || str_eq(f, "pack_expand_x")
        || str_eq(f, "pack_expand_y")
        || str_eq(f, "pack_fill_x")
        || str_eq(f, "pack_fill_y")
        || str_eq(f, "pack_shrink_x")
        || str_eq(f, "pack_shrink_y")
        || str_eq(f, "pack_allocate_w")
        || str_eq(f, "pack_allocate_h")
        || str_eq(f, "multiline")
        || str_eq(f, "adjust_scale")
        || str_eq(f, "num_proportional")
        || str_eq(f, "keep_scroll_point")
        || str_eq(f, "adjust_popup_size")
        || str_eq(f, "use_sync_timer")
}

/// `number_field` for a name in hand.
fn is_number_field(f: &str) -> (r: bool)
    ensures
        r == number_field(f@),
{
    str_eq(f, "visible_condition")
        || str_eq(f, "visible_compare")
        || str_eq(f, "pack_side")
        || str_eq(f, "shadow_value")
        || str_eq(f, "align")
        || str_eq(f, "display_policy")
        || str_eq(f, "loop_count")
        || str_eq(f, "h_magnify")
        || str_eq(f, "v_magnify")
        || str_eq(f, "value")
}

/// `text_field_name` for a name in hand.
fn is_text_field(f: &str) -> (r: bool)
    ensures
        r == text_field_name(f@),
{
    str_eq(f, "text")
        || str_eq(f, "font")
        || str_eq(f, "key")
        || str_eq(f, "localized_text_page")
        || str_eq(f, "image_path")
        || str_eq(f, "tl_image_path")
        || str_eq(f, "r_image_path")
        || str_eq(f, "blend_func_name")
        || str_eq(f, "increase_mode_name")
        || str_eq(f, "ease_type_name")
        || str_eq(f, "attribute_name")
        || str_eq(f, "focus_enter_action_name")
        || str_eq(f, "focus_leave_action_name")
}

/// `skipped_field` for a name in hand.
fn is_skipped_field(f: &str) -> (r: bool)
    ensures
        r == skipped_field(f@),
{
    str_eq(f, "section")
        || str_eq(f, "color_divide")
        || str_eq(f, "y_divide")
        || str_eq(f, "is_divide_color")
        || str_eq(f, "opacity")
        || str_eq(f, "scale_x")
        || str_eq(f, "scale_y")
        || str_eq(f, "pack_alignment_x")
        || str_eq(f, "pack_alignment_y")
        || str_eq(f, "pack_pad_left")
        || str_eq(f, "pack_pad_right")
        || str_eq(f, "pack_pad_top")
        || str_eq(f, "pack_pad_bottom")
        || str_eq(f, "inner_pad_left")
        || str_eq(f, "inner_pad_right")
        || str_eq(f, "inner_pad_top")
        || str_eq(f, "inner_pad_bottom")
        || str_eq(f, "frame_width")
        || str_eq(f, "frame_height")
        || str_eq(f, "cursor_align_x")
        || str_eq(f, "cursor_align_y")
        || str_eq(f, "x_alignment")
        || str_eq(f, "y_alignment")
        || str_eq(f, "round")
        || str_eq(f, "start_duration")
        || str_eq(f, "interpolation_period")
        || str_eq(f, "start_value")
        || str_eq(f, "end_value")
}

/// The views of a list with one more widget.
pub proof fn lemma_widgets_view_push(ws: Seq<Widget>, w: Widget)
    ensures
        widgets_view(ws.push(w)) == widgets_view(ws).push(widget_view(w)),
{
    assert(ws.push(w).drop_last() =~= ws);
    reveal_with_fuel(widgets_view, 2);
    reveal_with_fuel(widget_view, 2);
}

/// A widget's view, field by field.
pub proof fn lemma_widget_view(w: Widget)
    ensures
        widget_view(w) == (WidgetV {
            kind: kind_view(w.kind),
            name: w.name@,
            has_script: w.has_script,
            is_component: w.is_component,
            can_focus: w.can_focus,
            focus: w.focus,
            visible: w.visible,
            visible_condition: w.visible_condition,
            visible_compare: w.visible_compare,
            geometry: (w.geometry.0@, w.geometry.1@, w.geometry.2@, w.geometry.3@),
            clip: w.clip,
            children: widgets_view(w.children@),
            packable: w.packable,
            pack_side: w.pack_side,
            pack_expand_x: w.pack_expand_x,
            pack_expand_y: w.pack_expand_y,
            pack_fill_x: w.pack_fill_x,
            pack_fill_y: w.pack_fill_y,
            pack_shrink_x: w.pack_shrink_x,
            pack_shrink_y: w.pack_shrink_y,
            pack_allocate_w: w.pack_allocate_w,
            pack_allocate_h: w.pack_allocate_h,
            is_face: w.is_face,
        }),
{
    reveal_with_fuel(widget_view, 1);
}

/// `w` with the flag field `f` set (see `set_flag`).
fn with_flag(w: Widget, f: &str, b: bool) -> (r: Widget)
    ensures
        widget_view(r) == set_flag(widget_view(w), f@, b),
{
    let ghost w0 = w;
    proof {
        reveal(set_flag);
    }
    let r = Widget {
        is_component: if str_eq(f, "is_component") { b } else { w.is_component },
        can_focus: if str_eq(f, "can_focus") { b } else { w.can_focus },
        focus: if str_eq(f, "focus") { b } else { w.focus },
        visible: if str_eq(f, "visible") { b } else { w.visible },
        clip: if str_eq(f, "clip") { b } else { w.clip },
        is_face: if str_eq(f, "is_face") { b } else { w.is_face },
        packable: if str_eq(f, "packable") { b } else { w.packable },
        pack_expand_x: if str_eq(f, "pack_expand_x") { b } else { w.pack_expand_x },
        pack_expand_y: if str_eq(f, "pack_expand_y") { b } else { w.pack_expand_y },
        pack_fill_x: if str_eq(f, "pack_fill_x") { b } else { w.pack_fill_x },
        pack_fill_y: if str_eq(f, "pack_fill_y") { b } else { w.pack_fill_y },
        pack_shrink_x: if str_eq(f, "pack_shrink_x") { b } else { w.pack_shrink_x },
        pack_shrink_y: if str_eq(f, "pack_shrink_y") { b } else { w.pack_shrink_y },
        pack_allocate_w: if str_eq(f, "pack_allocate_w") { b } else { w.pack_allocate_w },
        pack_allocate_h: if str_eq(f, "pack_allocate_h") { b } else { w.pack_allocate_h },
        ..w
    };
    proof {
        lemma_widget_view(w0);
        lemma_widget_view(r);
    }
    r
}

/// A text face's shadow value (`is_shadow`) and alignment (`is_align`) set to `v`.
fn kind_with_number(k: WidgetKind, is_shadow: bool, is_align: bool, v: i32) -> (r: WidgetKind)
    ensures
        kind_view(r) == (match kind_view(k) {
            KindV::TextFace { text, font, color, shadow, shadow_value, align } => KindV::TextFace {
                text,
                font,
                color,
                shadow,
                shadow_value: if is_shadow { v } else { shadow_value },
                align: if is_align { v } else { align },
            },
            kv => kv,
        }),
{
    match k {
        WidgetKind::TextFace { text, font, color, shadow, shadow_value, align } => WidgetKind::TextFace {
            text,
            font,
            color,
            shadow,
            shadow_value: if is_shadow { v } else { shadow_value },
            align: if is_align { v } else { align },
        },
        other => other,
    }
}

/// A face's text, font or image set to `t`, as the flags name it.
fn kind_with_text(k: WidgetKind, is_text: bool, is_font: bool, is_image: bool, is_tl_image: bool, t: String) -> (r: WidgetKind)
    ensures
        kind_view(r) == (match kind_view(k) {
            KindV::TextFace { text, font, color, shadow, shadow_value, align } => if is_text {
                KindV::TextFace { text: t@, font, color, shadow, shadow_value, align }
            } else if is_font {
                KindV::TextFace { text, font: t@, color, shadow, shadow_value, align }
            } else {
                KindV::TextFace { text, font, color, shadow, shadow_value, align }
            },
            KindV::ImageFace { image_path } => KindV::ImageFace {
                image_path: if is_image { t@ } else { image_path },
            },
            KindV::FrameImageFace { tl_image_path } => KindV::FrameImageFace {
                tl_image_path: if is_image || is_tl_image { t@ } else { tl_image_path },
            },
            kv => kv,
        }),
{
    match k {
        WidgetKind::TextFace { text, font, color, shadow, shadow_value, align } => if is_text {
            WidgetKind::TextFace { text: t, font, color, shadow, shadow_value, align }
        } else if is_font {
            WidgetKind::TextFace { text, font: t, color, shadow, shadow_value, align }
        } else {
            WidgetKind::TextFace { text, font, color, shadow, shadow_value, align }
        },
        WidgetKind::ImageFace { image_path } => if is_image {
            WidgetKind::ImageFace { image_path: t }
        } else {
            WidgetKind::ImageFace { image_path }
        },
        WidgetKind::FrameImageFace { tl_image_path } => if is_image || is_tl_image {
            WidgetKind::FrameImageFace { tl_image_path: t }
        } else {
            WidgetKind::FrameImageFace { tl_image_path }
        },
        other => other,
    }
}

/// `w` with the integer field `f` set (see `set_number`).
fn with_number(w: Widget, f: &str, v: i32) -> (r: Widget)
    ensures
        widget_view(r) == set_number(widget_view(w), f@, v),
{
    let ghost w0 = w;
    proof {
        reveal(set_number);
    }
    let is_shadow = str_eq(f, "shadow_value");
    let is_align = str_eq(f, "align");
    let visible_condition = if str_eq(f, "visible_condition") { v } else { w.visible_condition };
    let visible_compare = if str_eq(f, "visible_compare") { v } else { w.visible_compare };
    let pack_side = if str_eq(f, "pack_side") { v } else { w.pack_side };
    let kind = kind_with_number(w.kind, is_shadow, is_align, v);
    let r = Widget { kind, visible_condition, visible_compare, pack_side, ..w };
    proof {
        lemma_widget_view(w0);
        lemma_widget_view(r);
    }
    r
}

/// `w` with the text field `f` set (see `set_text`).
fn with_text(w: Widget, f: &str, t: String) -> (r: Widget)
    ensures
        widget_view(r) == set_text(widget_view(w), f@, t@),
{
    let ghost w0 = w;
    proof {
        reveal(set_text);
    }
    let is_text = str_eq(f, "text");
    let is_font = str_eq(f, "font");
    let is_image = str_eq(f, "image_path");
    let is_tl_image = str_eq(f, "tl_image_path");
    let kind = kind_with_text(w.kind, is_text, is_font, is_image, is_tl_image, t);
    let r = Widget { kind, ..w };
    proof {
        lemma_widget_view(w0);
        lemma_widget_view(r);
    }
    r
}

/// `w` with the colour list of a colour face set (other kinds keep theirs).
fn with_face_colors(w: Widget, cs: Vec<RGBA>) -> (r: Widget)
    ensures
        widget_view(r) == (match widget_view(w).kind {
            KindV::ColorFace { .. } => WidgetV { kind: KindV::ColorFace { color: cs@ }, ..widget_view(w) },
            _ => widget_view(w),
        }),
{
    let ghost w0 = w;
    let kind = match w.kind {
        WidgetKind::ColorFace { .. } => WidgetKind::ColorFace { color: cs },
        other => other,
    };
    let r = Widget { kind, ..w };
    proof {
        lemma_widget_view(w0);
        lemma_widget_view(r);
    }
    r
}

/// `w` with the text colour (`shadow_color` false) or shadow colour of a text face set.
fn with_face_rgba(w: Widget, c: RGBA, shadow_color: bool) -> (r: Widget)
    ensures
        widget_view(r) == (match widget_view(w).kind {
            KindV::TextFace { text, font, color, shadow, shadow_value, align } => WidgetV {
                kind: if shadow_color {
                    KindV::TextFace { text, font, color, shadow: c, shadow_value, align }
                } else {
                    KindV::TextFace { text, font, color: c, shadow, shadow_value, align }
                },
                ..widget_view(w)
            },
            _ => widget_view(w),
        }),
{
    let ghost w0 = w;
    let kind = match w.kind {
        WidgetKind::TextFace { text, font, color, shadow, shadow_value, align } => if shadow_color {
            WidgetKind::TextFace { text, font, color, shadow: c, shadow_value, align }
        } else {
            WidgetKind::TextFace { text, font, color: c, shadow, shadow_value, align }
        },
        other => other,
    };
    let r = Widget { kind, ..w };
    proof {
        lemma_widget_view(w0);
        lemma_widget_view(r);
    }
    r
}

/// A widget of kind `kind` before any of its fields is read (see `default_widget`).
fn new_widget(kind: WidgetKind) -> (w: Widget)
    ensures
        widget_view(w) == default_widget(kind_view(kind)),
{
    let w = Widget {
        kind,
        name: String::new(),
        has_script: false,
        is_component: false,
        can_focus: false,
        focus: false,
        visible: true,
        visible_condition: 0,
        visible_compare: 0,
        geometry: (String::new(), String::new(), String::new(), String::new()),
        clip: false,
        children: Vec::new(),
        packable: false,
        pack_side: 0,
        pack_expand_x: false,
        pack_expand_y: false,
        pack_fill_x: false,
        pack_fill_y: false,
        pack_shrink_x: false,
        pack_shrink_y: false,
        pack_allocate_w: true,
        pack_allocate_h: true,
        is_face: false,
    };
    proof {
        lemma_widget_view(w);
        assert(widgets_view(w.children@) =~= Seq::<WidgetV>::empty());
    }
    w
}

impl MProjectParser {
    /// Reads colours up to the closing brace of their list (see `colors_from`).
    fn parse_colors(&mut self) -> (cs: Vec<RGBA>)
        requires
            room(old(self).tokens_view()),
            old(self).position() <= old(self).tokens_view().len() + 8,
        ensures
            final(self).tokens_view() == old(self).tokens_view(),
            final(self).nesting() == old(self).nesting(),
            (cs@, final(self).position()) == colors_from(old(self).tokens_view(), old(self).position()),
            old(self).position() <= final(self).position(),
            final(self).position() <= old(self).tokens_view().len() + 8,
    {
        let ghost ts = self.tokens_view();
        let ghost p0 = self.position();
        let mut cs: Vec<RGBA> = Vec::new();
        while !self.at_list_end()
            invariant
                old(self).position() <= self.position(),
                self.tokens_view() == ts,
                room(ts),
                self.nesting() == old(self).nesting(),
                self.position() <= ts.len() + 8,
                cs@ + colors_from(ts, self.position()).0 == colors_from(ts, p0).0,
                colors_from(ts, self.position()).1 == colors_from(ts, p0).1,
            decreases (if self.position() < ts.len() { ts.len() - self.position() } else { 0 }),
        {
            let ghost p = self.position();
            let c = self.parse_rgba();
            proof {
                let rest = colors_from(ts, self.position());
                assert(cs@.push(c) + rest.0 =~= cs@ + (seq![c] + rest.0));
            }
            cs.push(c);
        }
        proof {
            assert(cs@ + Seq::<RGBA>::empty() =~= cs@);
        }
        cs
    }

    /// Reads a section's fields up to its closing brace (see `section_fields`).
    fn parse_section_fields(&mut self) -> (s: MScalarSection)
        requires
            room(old(self).tokens_view()),
            old(self).position() <= old(self).tokens_view().len() + 8,
        ensures
            final(self).tokens_view() == old(self).tokens_view(),
            final(self).nesting() == old(self).nesting(),
            ((s.start_duration@, s.interp_period@, s.start_value@, s.end_value@), final(self).position())
                == section_fields(old(self).tokens_view(), old(self).position(), (Seq::empty(), Seq::empty(), Seq::empty(), Seq::empty())),
            old(self).position() <= final(self).position(),
            final(self).position() <= old(self).tokens_view().len() + 8,
    {
        let ghost ts = self.tokens_view();
        let ghost target = section_fields(ts, self.position(), (Seq::empty(), Seq::empty(), Seq::empty(), Seq::empty()));
        let mut sd = String::new();
        let mut ip = String::new();
        let mut sv = String::new();
        let mut ev = String::new();
        while !self.at_list_end()
            invariant
                old(self).position() <= self.position(),
                self.tokens_view() == ts,
                room(ts),
                self.nesting() == old(self).nesting(),
                self.position() <= ts.len() + 8,
                section_fields(ts, self.position(), (sd@, ip@, sv@, ev@)) == target,
            decreases (if self.position() < ts.len() { ts.len() - self.position() } else { 0 }),
        {
            let k = self.text_field();
            if str_eq(k.as_str(), "start_duration") {
                self.expect("float");
                sd = self.text_field();
            } else if str_eq(k.as_str(), "interpolation_period") {
                self.expect("float");
                ip = self.text_field();
            } else if str_eq(k.as_str(), "start_value") {
                self.expect("float");
                sv = self.text_field();
            } else if str_eq(k.as_str(), "end_value") {
                self.expect("float");
                ev = self.text_field();
            } else {
                proof {
                    lemma_block_end_ge(ts, self.position(), 1);
                }
                self.skip_block();
            }
        }
        MScalarSection { start_duration: sd, interp_period: ip, start_value: sv, end_value: ev }
    }

    /// Reads sections up to the closing brace of their list (see `sections_from`).
    fn parse_sections(&mut self) -> (ss: Vec<MScalarSection>)
        requires
            room(old(self).tokens_view()),
            old(self).position() <= old(self).tokens_view().len() + 8,
        ensures
            final(self).tokens_view() == old(self).tokens_view(),
            final(self).nesting() == old(self).nesting(),
            (sections_view(ss@), final(self).position()) == sections_from(old(self).tokens_view(), old(self).position()),
            old(self).position() <= final(self).position(),
            final(self).position() <= old(self).tokens_view().len() + 8,
    {
        let ghost ts = self.tokens_view();
        let ghost p0 = self.position();
        let mut ss: Vec<MScalarSection> = Vec::new();
        while !self.at_list_end()
            invariant
                old(self).position() <= self.position(),
                self.tokens_view() == ts,
                room(ts),
                self.nesting() == old(self).nesting(),
                self.position() <= ts.len() + 8,
                sections_view(ss@) + sections_from(ts, self.position()).0 == sections_from(ts, p0).0,
                sections_from(ts, self.position()).1 == sections_from(ts, p0).1,
            decreases (if self.position() < ts.len() { ts.len() - self.position() } else { 0 }),
        {
            let _ = self.consume();
            self.expect("{");
            proof {
                lemma_section_fields_ge(ts, self.position(), (Seq::empty(), Seq::empty(), Seq::empty(), Seq::empty()));
            }
            let sec = self.parse_section_fields();
            self.expect("}");
            proof {
                let rest = sections_from(ts, self.position());
                let v = (sec.start_duration@, sec.interp_period@, sec.start_value@, sec.end_value@);
                assert(sections_view(ss@.push(sec)) =~= sections_view(ss@).push(v));
                assert(sections_view(ss@).push(v) + rest.0 =~= sections_view(ss@) + (seq![v] + rest.0));
            }
            ss.push(sec);
        }
        proof {
            assert(sections_view(ss@) + Seq::<SectionV>::empty() =~= sections_view(ss@));
        }
        ss
    }

    /// Reads the key at the position into the interpolator `a` (see `actor_key_step`).
    fn parse_actor_key(&mut self, a: ActorDef) -> (r: ActorDef)
        requires
            room(old(self).tokens_view()),
            old(self).position() < old(self).tokens_view().len(),
        ensures
            final(self).tokens_view() == old(self).tokens_view(),
            final(self).nesting() == old(self).nesting(),
            (actor_view(r), final(self).position()) == actor_key_step(old(self).tokens_view(), old(self).position(), actor_view(a)),
            final(self).position() <= old(self).tokens_view().len() + 8,
    {
        let ghost ts = self.tokens_view();
        let key = self.text_field();
        let k = key.as_str();
        match a {
            ActorDef::ScalarInterpolator { name, attr, loop_count, reverse, initial_playing, sections } => {
                if str_eq(k, "name") {
                    self.expect("string");
                    let name = self.text_field();
                    ActorDef::ScalarInterpolator { name, attr, loop_count, reverse, initial_playing, sections }
                } else if str_eq(k, "attr") {
                    self.expect("string");
                    let attr = self.text_field();
                    ActorDef::ScalarInterpolator { name, attr, loop_count, reverse, initial_playing, sections }
                } else if str_eq(k, "loop_count") {
                    self.expect("digit");
                    let loop_count = self.int_field();
                    ActorDef::ScalarInterpolator { name, attr, loop_count, reverse, initial_playing, sections }
                } else if str_eq(k, "reverse") {
                    self.expect("digit");
                    let reverse = self.int_field() != 0;
                    ActorDef::ScalarInterpolator { name, attr, loop_count, reverse, initial_playing, sections }
                } else if str_eq(k, "initial_playing") {
                    self.expect("digit");
                    let initial_playing = self.int_field() != 0;
                    ActorDef::ScalarInterpolator { name, attr, loop_count, reverse, initial_playing, sections }
                } else if str_eq(k, "sections") {
                    self.list_header();
                    let ghost before = sections_view(sections@);
                    let mut more = self.parse_sections();
                    let ghost mv = sections_view(more@);
                    let mut sections = sections;
                    sections.append(&mut more);
                    proof {
                        assert(sections_view(sections@) =~= before + mv);
                    }
                    self.expect("}");
                    ActorDef::ScalarInterpolator { name, attr, loop_count, reverse, initial_playing, sections }
                } else {
                    proof {
                        lemma_block_end_ge(ts, self.position(), 1);
                    }
                    self.skip_block();
                    ActorDef::ScalarInterpolator { name, attr, loop_count, reverse, initial_playing, sections }
                }
            },
            ActorDef::Unknown(n) => {
                proof {
                    lemma_block_end_ge(ts, self.position(), 1);
                }
                self.skip_block();
                ActorDef::Unknown(n)
            },
        }
    }

    /// Reads an actor (see `actor_at`).
    fn parse_actor(&mut self) -> (a: ActorDef)
        requires
            room(old(self).tokens_view()),
            old(self).position() < old(self).tokens_view().len(),
        ensures
            final(self).tokens_view() == old(self).tokens_view(),
            final(self).nesting() == old(self).nesting(),
            (actor_view(a), final(self).position()) == actor_at(old(self).tokens_view(), old(self).position()),
            final(self).position() <= old(self).tokens_view().len() + 8,
    {
        let ghost ts = self.tokens_view();
        let ghost p0 = self.position();
        let kind_name = self.text_field();
        self.expect("{");
        if str_eq(kind_name.as_str(), "ScalarInterpolator") || str_eq(kind_name.as_str(), "MColorInterpolator") {
            let ghost target = actor_keys(ts, self.position(), empty_interpolator());
            let mut a = ActorDef::ScalarInterpolator {
                name: String::new(),
                attr: String::new(),
                loop_count: 0,
                reverse: false,
                initial_playing: false,
                sections: Vec::new(),
            };
            proof {
                assert(actor_view(a) == empty_interpolator()) by {
                    assert(sections_view(Seq::<MScalarSection>::empty()) =~= Seq::<SectionV>::empty());
                }
            }
            while !self.at_list_end()
                invariant
                    self.tokens_view() == ts,
                    room(ts),
                    self.nesting() == old(self).nesting(),
                    self.position() <= ts.len() + 8,
                    actor_keys(ts, self.position(), actor_view(a)) == target,
                decreases (if self.position() < ts.len() { ts.len() - self.position() } else { 0 }),
            {
                proof {
                    lemma_actor_key_step_gt(ts, self.position(), actor_view(a));
                }
                a = self.parse_actor_key(a);
            }
            self.expect("}");
            a
        } else {
            proof {
                lemma_block_end_ge(ts, self.position(), 1);
            }
            self.skip_block();
            self.expect("}");
            ActorDef::Unknown(kind_name)
        }
    }

    /// Reads actors up to the closing brace of their list (see `actors_end`).
    fn skip_actors(&mut self)
        requires
            room(old(self).tokens_view()),
            old(self).position() <= old(self).tokens_view().len() + 8,
        ensures
            final(self).tokens_view() == old(self).tokens_view(),
            final(self).nesting() == old(self).nesting(),
            final(self).position() == actors_end(old(self).tokens_view(), old(self).position()),
            old(self).position() <= final(self).position(),
            final(self).position() <= old(self).tokens_view().len() + 8,
    {
        let ghost ts = self.tokens_view();
        let ghost p0 = self.position();
        while !self.at_list_end()
            invariant
                old(self).position() <= self.position(),
                self.tokens_view() == ts,
                room(ts),
                self.nesting() == old(self).nesting(),
                self.position() <= ts.len() + 8,
                actors_end(ts, self.position()) == actors_end(ts, p0),
            decreases (if self.position() < ts.len() { ts.len() - self.position() } else { 0 }),
        {
            proof {
                lemma_actor_at_gt(ts, self.position());
            }
            let _ = self.parse_actor();
        }
    }

    /// Reads a widget's name.
    fn parse_name_field(&mut self, w: Widget) -> (r: Widget)
        requires
            old(self).position() <= old(self).tokens_view().len(),
            room(old(self).tokens_view()),
        ensures
            final(self).tokens_view() == old(self).tokens_view(),
            final(self).nesting() == old(self).nesting(),
            widget_view(r) == (WidgetV { name: token_text(old(self).tokens_view(), old(self).position()), ..widget_view(w) }),
            final(self).position() == old(self).position() + 1,
    {
        let ghost w0 = w;
        let n = self.text_field();
        let r = Widget { name: n, ..w };
        proof {
            lemma_widget_view(w0);
            lemma_widget_view(r);
        }
        r
    }

    /// Reads a widget's script flag.
    fn parse_script_field(&mut self, w: Widget) -> (r: Widget)
        requires
            old(self).position() <= old(self).tokens_view().len(),
            room(old(self).tokens_view()),
        ensures
            final(self).tokens_view() == old(self).tokens_view(),
            final(self).nesting() == old(self).nesting(),
            ({
                let ts = old(self).tokens_view();
                let q2 = after_expect(ts, after_expect(ts, old(self).position(), "digit"@), "{"@);
                &&& widget_view(r) == (WidgetV { has_script: int_token(ts, q2) != 0, ..widget_view(w) })
                &&& final(self).position() == after_expect(ts, q2 + 1, "}"@)
            }),
            old(self).position() < final(self).position() <= old(self).tokens_view().len() + 8,
    {
        let ghost w0 = w;
        self.expect("digit");
        self.expect("{");
        let b = self.int_field() != 0;
        self.expect("}");
        let r = Widget { has_script: b, ..w };
        proof {
            lemma_widget_view(w0);
            lemma_widget_view(r);
        }
        r
    }

    /// Reads a widget's geometry.
    #[verifier::spinoff_prover]
    #[verifier::rlimit(40)]
    fn parse_geometry_field(&mut self, w: Widget) -> (r: Widget)
        requires
            old(self).position() <= old(self).tokens_view().len(),
            room(old(self).tokens_view()),
        ensures
            final(self).tokens_view() == old(self).tokens_view(),
            final(self).nesting() == old(self).nesting(),
            ({
                let ts = old(self).tokens_view();
                let q2 = after_expect(ts, after_expect(ts, old(self).position(), "rectangle"@), "{"@);
                &&& widget_view(r) == (WidgetV {
                    geometry: (token_text(ts, q2), token_text(ts, q2 + 1), token_text(ts, q2 + 2), token_text(ts, q2 + 3)),
                    ..widget_view(w)
                })
                &&& final(self).position() == after_expect(ts, q2 + 4, "}"@)
            }),
            old(self).position() < final(self).position() <= old(self).tokens_view().len() + 8,
    {
        let ghost w0 = w;
        self.expect("rectangle");
        self.expect("{");
        let x = self.text_field();
        let y = self.text_field();
        let gw = self.text_field();
        let gh = self.text_field();
        self.expect("}");
        let r = Widget { geometry: (x, y, gw, gh), ..w };
        proof {
            lemma_widget_view(w0);
            lemma_widget_view(r);
        }
        r
    }

    /// Reads the value of the value field `f` into `w` (see `value_field_at`).
    fn parse_value_field(&mut self, f: &str, w: Widget) -> (r: Widget)
        requires
            room(old(self).tokens_view()),
            0 <= old(self).position() <= old(self).tokens_view().len(),
            value_field(f@),
        ensures
            final(self).tokens_view() == old(self).tokens_view(),
            final(self).nesting() == old(self).nesting(),
            (widget_view(r), final(self).position()) == value_field_at(
                old(self).tokens_view(),
                f@,
                old(self).position(),
                widget_view(w),
            ),
            old(self).position() < final(self).position() <= old(self).tokens_view().len() + 8,
    {
        if str_eq(f, "name") {
            self.parse_name_field(w)
        } else if str_eq(f, "has_script") {
            self.parse_script_field(w)
        } else if is_flag_field(f) {
            let b = self.int_field() != 0;
            let r = with_flag(w, f, b);
            self.expect("}");
            r
        } else if is_number_field(f) {
            let v = self.int_field();
            let r = with_number(w, f, v);
            self.expect("}");
            r
        } else if str_eq(f, "geometry") {
            self.parse_geometry_field(w)
        } else {
            let t = self.text_field();
            with_text(w, f, t)
        }
    }

    /// Reads the colours of the colour field `f` into `w` (see `colour_field_at`).
    fn parse_colour_field(&mut self, f: &str, w: Widget) -> (r: Widget)
        requires
            room(old(self).tokens_view()),
            0 <= old(self).position() <= old(self).tokens_view().len(),
        ensures
            final(self).tokens_view() == old(self).tokens_view(),
            final(self).nesting() == old(self).nesting(),
            (widget_view(r), final(self).position()) == colour_field_at(
                old(self).tokens_view(),
                f@,
                old(self).position(),
                widget_view(w),
            ),
            old(self).position() <= final(self).position() <= old(self).tokens_view().len() + 8,
    {
        if str_eq(f, "color") {
            self.list_header();
            let cs = self.parse_colors();
            self.expect("}");
            with_face_colors(w, cs)
        } else {
            let c = self.parse_rgba();
            with_face_rgba(w, c, !str_eq(f, "text_color"))
        }
    }

    /// Moves past the value of a field that leaves the widget as it is (see
    /// `passed_field_end`).
    fn pass_field(&mut self, f: &str)
        requires
            room(old(self).tokens_view()),
            0 <= old(self).position() <= old(self).tokens_view().len(),
        ensures
            final(self).tokens_view() == old(self).tokens_view(),
            final(self).nesting() == old(self).nesting(),
            final(self).position() == passed_field_end(old(self).tokens_view(), f@, old(self).position()),
            old(self).position() <= final(self).position() <= old(self).tokens_view().len() + 8,
    {
        let ghost ts = self.tokens_view();
        if str_eq(f, "actor_list") {
            self.list_header();
            self.skip_actors();
            self.expect("}");
        } else if is_skipped_field(f) {
            proof {
                lemma_block_end_ge(ts, self.position(), 1);
            }
            self.skip_block();
        } else if str_eq(f, "navigate_source") || str_eq(f, "navigate_target") {
            self.expect("region");
            self.expect("{");
            self.skip_token();
            self.skip_token();
            self.skip_token();
            self.skip_token();
            self.expect("}");
        }
    }

    /// Reads a child list into `w`, replacing its children.
    fn parse_children_field(&mut self, w: Widget) -> (r: Widget)
        requires
            room(old(self).tokens_view()),
            0 <= old(self).position() <= old(self).tokens_view().len(),
        ensures
            final(self).tokens_view() == old(self).tokens_view(),
            final(self).nesting() == old(self).nesting(),
            ({
                let ts = old(self).tokens_view();
                let d = old(self).nesting() as int;
                let q4 = list_open(ts, old(self).position());
                let (cs, q5) = if d > 40 {
                    (Seq::empty(), q4)
                } else {
                    widgets_from(ts, q4, d + 1)
                };
                &&& widget_view(r) == (WidgetV { children: cs, ..widget_view(w) })
                &&& final(self).position() == after_expect(ts, q5, "}"@)
            }),
            old(self).position() < final(self).position() <= old(self).tokens_view().len() + 8,
        decreases (if old(self).position() < old(self).tokens_view().len() {
            old(self).tokens_view().len() - old(self).position()
        } else {
            0
        }), 4int,
    {
        let ghost w0 = w;
        self.list_header();
        let cs = self.parse_children();
        self.expect("}");
        let r = Widget { children: cs, ..w };
        proof {
            lemma_widget_view(w0);
            lemma_widget_view(r);
        }
        r
    }

    /// Reads the field at the position into `w` (see `field_at`).
    fn parse_field(&mut self, w: Widget) -> (r: Widget)
        requires
            room(old(self).tokens_view()),
            0 <= old(self).position() < old(self).tokens_view().len(),
        ensures
            final(self).tokens_view() == old(self).tokens_view(),
            final(self).nesting() == old(self).nesting(),
            (widget_view(r), final(self).position()) == field_at(
                old(self).tokens_view(),
                old(self).position(),
                old(self).nesting() as int,
                widget_view(w),
            ),
            old(self).position() < final(self).position() <= old(self).tokens_view().len() + 8,
        decreases (if old(self).position() < old(self).tokens_view().len() {
            old(self).tokens_view().len() - old(self).position()
        } else {
            0
        }), 0int,
    {
        let field = self.text_field();
        let f = field.as_str();
        if str_eq(f, "children") {
            self.parse_children_field(w)
        } else if str_eq(f, "name") || str_eq(f, "has_script") || is_flag_field(f) || is_number_field(f)
            || str_eq(f, "geometry") || is_text_field(f) {
            self.parse_value_field(f, w)
        } else if str_eq(f, "color") || str_eq(f, "text_color") || str_eq(f, "shadow_color") {
            self.parse_colour_field(f, w)
        } else {
            self.pass_field(f);
            w
        }
    }

    /// Reads a widget (see `widget_at`).
    fn parse_widget(&mut self) -> (w: Widget)
        requires
            room(old(self).tokens_view()),
            0 <= old(self).position() <= old(self).tokens_view().len(),
        ensures
            final(self).tokens_view() == old(self).tokens_view(),
            final(self).nesting() == old(self).nesting(),
            (widget_view(w), final(self).position()) == widget_at(
                old(self).tokens_view(),
                old(self).position(),
                old(self).nesting() as int,
            ),
            old(self).position() < final(self).position() <= old(self).tokens_view().len() + 8,
        decreases (if old(self).position() < old(self).tokens_view().len() {
            old(self).tokens_view().len() - old(self).position()
        } else {
            0
        }), 2int,
    {
        let ghost ts = self.tokens_view();
        let ghost p0 = self.position();
        let ghost d: int = self.nesting() as int;
        let kind_name = self.text_field();
        self.expect("{");
        let mut w = new_widget(type_to_kind(kind_name.as_str()));
        let ghost q0 = self.position();
        let ghost target = fields_from(ts, q0, d, widget_view(w));
        let mut done = false;
        while !done && !self.at_end()
            invariant
                self.tokens_view() == ts,
                room(ts),
                self.nesting() == d,
                p0 < q0 <= self.position() <= ts.len() + 8,
                q0 <= ts.len() + 1,
                p0 == old(self).position(),
                ts == old(self).tokens_view(),
                0 <= p0,
                p0 <= ts.len(),
                done ==> (widget_view(w), self.position()) == target,
                !done ==> fields_from(ts, self.position(), d, widget_view(w)) == target,
            decreases 2 * (if self.position() < ts.len() { ts.len() - self.position() } else { 0 }) + (if done { 0int } else { 1int }),
        {
            if self.at_token("}") {
                self.skip_token();
                done = true;
            } else {
                w = self.parse_field(w);
            }
        }
        w
    }

    /// Reads the widgets of a child list up to its closing brace, one level deeper; a
    /// list nested deeper than 41 levels is left unread.
    fn parse_children(&mut self) -> (ws: Vec<Widget>)
        requires
            room(old(self).tokens_view()),
            0 <= old(self).position() <= old(self).tokens_view().len() + 8,
        ensures
            final(self).tokens_view() == old(self).tokens_view(),
            final(self).nesting() == old(self).nesting(),
            (widgets_view(ws@), final(self).position()) == (if old(self).nesting() > 40 {
                (Seq::<WidgetV>::empty(), old(self).position())
            } else {
                widgets_from(old(self).tokens_view(), old(self).position(), old(self).nesting() + 1int)
            }),
            old(self).position() <= final(self).position() <= old(self).tokens_view().len() + 8,
        decreases (if old(self).position() < old(self).tokens_view().len() {
            old(self).tokens_view().len() - old(self).position()
        } else {
            0
        }), 3int,
    {
        let ghost ts = self.tokens_view();
        let ghost p0 = self.position();
        let ghost d: int = self.nesting() as int;
        if self.nested_too_deep() {
            let ws: Vec<Widget> = Vec::new();
            proof {
                assert(widgets_view(ws@) =~= Seq::<WidgetV>::empty());
            }
            return ws;
        }
        self.enter_list();
        let mut ws: Vec<Widget> = Vec::new();
        proof {
            assert(widgets_view(ws@) =~= Seq::<WidgetV>::empty());
            assert(Seq::<WidgetV>::empty() + widgets_from(ts, p0, d + 1).0 =~= widgets_from(ts, p0, d + 1).0);
        }
        while !self.at_list_end()
            invariant
                self.tokens_view() == ts,
                room(ts),
                self.nesting() == d + 1,
                d <= 40,
                p0 == old(self).position(),
                ts == old(self).tokens_view(),
                d == old(self).nesting(),
                p0 <= self.position() <= ts.len() + 8,
                0 <= p0,
                widgets_view(ws@) + widgets_from(ts, self.position(), d + 1).0 == widgets_from(ts, p0, d + 1).0,
                widgets_from(ts, self.position(), d + 1).1 == widgets_from(ts, p0, d + 1).1,
            decreases (if self.position() < ts.len() { ts.len() - self.position() } else { 0 }),
        {
            let w = self.parse_widget();
            proof {
                let rest = widgets_from(ts, self.position(), d + 1);
                let v = widget_view(w);
                lemma_widgets_view_push(ws@, w);
                assert(widgets_view(ws@).push(v) + rest.0 =~= widgets_view(ws@) + (seq![v] + rest.0));
            }
            ws.push(w);
        }
        proof {
            assert(widgets_view(ws@) + Seq::<WidgetV>::empty() =~= widgets_view(ws@));
        }
        self.leave_list();
        ws
    }

    /// Reads the project field at the position into `pr` (see `project_field`).
    fn parse_project_field(&mut self, pr: MProject) -> (r: MProject)
        requires
            room(old(self).tokens_view()),
            0 <= old(self).position() < old(self).tokens_view().len(),
        ensures
            final(self).tokens_view() == old(self).tokens_view(),
            final(self).nesting() == old(self).nesting(),
            (project_view(r), final(self).position()) == project_field(
                old(self).tokens_view(),
                old(self).tokens_view()[old(self).position()],
                old(self).position() + 1,
                old(self).nesting() as int,
                project_view(pr),
            ),
            old(self).position() < final(self).position() <= old(self).tokens_view().len() + 8,
    {
        let t = self.text_field();
        let f = t.as_str();
        if str_eq(f, "name") {
            let name = self.text_field();
            MProject { name, ..pr }
        } else if str_eq(f, "has_script") || str_eq(f, "focus") {
            self.expect("digit");
            self.expect("{");
            let b = self.int_field() != 0;
            self.expect("}");
            if str_eq(f, "has_script") {
                MProject { has_script: b, ..pr }
            } else {
                MProject { focus: b, ..pr }
            }
        } else if str_eq(f, "children") {
            self.list_header();
            let root_windows = self.parse_children();
            self.expect("}");
            MProject { root_windows, ..pr }
        } else if str_eq(f, "project_component") {
            let _ = self.parse_widget();
            pr
        } else {
            pr
        }
    }

    /// Reads a project: `Project {`, then its fields up to its closing brace (see
    /// `project_at`).
    pub fn parse_project(&mut self) -> (r: MProject)
        requires
            room(old(self).tokens_view()),
            old(self).position() <= old(self).tokens_view().len(),
        ensures
            final(self).tokens_view() == old(self).tokens_view(),
            final(self).nesting() == old(self).nesting(),
            (project_view(r), final(self).position()) == project_at(
                old(self).tokens_view(),
                old(self).position(),
                old(self).nesting() as int,
            ),
    {
        let ghost ts = self.tokens_view();
        let ghost d: int = self.nesting() as int;
        proof {
            self.lemma_position_nonneg();
        }
        self.expect("Project");
        self.expect("{");
        let mut pr = MProject { name: String::new(), has_script: false, focus: false, root_windows: Vec::new() };
        proof {
            assert(widgets_view(pr.root_windows@) =~= Seq::<WidgetV>::empty());
        }
        let ghost target = project_fields(ts, self.position(), d, project_view(pr));
        let mut done = false;
        while !done && !self.at_end()
            invariant
                self.tokens_view() == ts,
                room(ts),
                self.nesting() == d,
                0 <= self.position() <= ts.len() + 8,
                done ==> (project_view(pr), self.position()) == target,
                !done ==> project_fields(ts, self.position(), d, project_view(pr)) == target,
            decreases 2 * (if self.position() < ts.len() { ts.len() - self.position() } else { 0 }) + (if done { 0int } else { 1int }),
        {
            if self.at_token("}") {
                self.skip_token();
                done = true;
            } else {
                pr = self.parse_project_field(pr);
            }
        }
        pr
    }

}

/// Appends the focusable names of the subtree of `w` to `out` (see `focus_names_of`).
fn collect_focusable(w: &Widget, out: &mut Vec<String>)
    ensures
        final(out)@.map_values(|s: String| s@) == old(out)@.map_values(|s: String| s@) + focus_names_of(widget_view(*w)),
    decreases w,
{
    proof {
        lemma_widget_view(*w);
    }
    let ghost start = out@.map_values(|s: String| s@);
    let is_focusable = w.can_focus || match w.kind {
        WidgetKind::OptionMenu => true,
        WidgetKind::ListBox => true,
        _ => false,
    };
    if is_focusable {
        out.push(w.name.clone());
    }
    let ghost own = if is_focusable { seq![w.name@] } else { Seq::<Seq<char>>::empty() };
    proof {
        assert(out@.map_values(|s: String| s@) =~= start + own);
    }
    let mut i: usize = 0;
    while i < w.children.len()
        invariant
            i <= w.children@.len(),
            out@.map_values(|s: String| s@) == start + own + focus_names_in(widgets_view(w.children@.take(i as int))),
        decreases w.children@.len() - i,
    {
        proof {
            assert(decreases_to!(w => w.children@[i as int]));
        }
        collect_focusable(&w.children[i], out);
        proof {
            let c = w.children@[i as int];
            assert(w.children@.take(i as int + 1) =~= w.children@.take(i as int).push(c));
            lemma_widgets_view_push(w.children@.take(i as int), c);
            let vs = widgets_view(w.children@.take(i as int));
            assert(vs.push(widget_view(c)).drop_last() =~= vs);
            assert(out@.map_values(|s: String| s@) =~= start + own + focus_names_in(widgets_view(w.children@.take(i as int + 1))));
        }
        i = i + 1;
    }
    proof {
        assert(w.children@.take(w.children@.len() as int) =~= w.children@);
        assert(start + own + focus_names_in(widgets_view(w.children@)) =~= start + focus_names_of(widget_view(*w)));
    }
}

impl FocusState {
    /// Lists the focusable widgets of the project's root windows, in order (see
    /// `focus_names_in`); the focus and the page stay as they were.
    pub fn scan_focusable_widgets(&mut self, project: &MProject)
        ensures
            final(self).focus_widgets@.map_values(|s: String| s@) == focus_names_in(project_view(*project).root_windows),
            final(self).focus_index == old(self).focus_index,
            final(self).finished == old(self).finished,
            final(self).active_page == old(self).active_page,
    {
        let mut names: Vec<String> = Vec::new();
        let ws = &project.root_windows;
        let mut i: usize = 0;
        proof {
            assert(ws@.take(0) =~= Seq::<Widget>::empty());
            assert(widgets_view(Seq::<Widget>::empty()) =~= Seq::<WidgetV>::empty());
            assert(names@.map_values(|s: String| s@) =~= Seq::<Seq<char>>::empty());
        }
        while i < ws.len()
            invariant
                i <= ws@.len(),
                names@.map_values(|s: String| s@) == focus_names_in(widgets_view(ws@.take(i as int))),
            decreases ws@.len() - i,
        {
            collect_focusable(&ws[i], &mut names);
            proof {
                let c = ws@[i as int];
                assert(ws@.take(i as int + 1) =~= ws@.take(i as int).push(c));
                lemma_widgets_view_push(ws@.take(i as int), c);
                let vs = widgets_view(ws@.take(i as int));
                assert(vs.push(widget_view(c)).drop_last() =~= vs);
            }
            i = i + 1;
        }
        proof {
            assert(ws@.take(ws@.len() as int) =~= ws@);
        }
        self.focus_widgets = names;
    }
}

impl FocusState {
    /// A frame of the menu: nothing without a project; otherwise the focusable widgets
    /// are listed when none is (see `scan_focusable_widgets`), and the frame's buttons
    /// move the focus and may finish the page (see `handle_keys`).
    pub fn update(&mut self, project: Option<&MProject>, key_state: u32)
        ensures
            match project {
                None => *final(self) == *old(self),
                Some(p) => {
                    let names = if old(self).focus_widgets@.len() == 0 {
                        focus_names_in(project_view(*p).root_windows)
                    } else {
                        old(self).focus_widgets@.map_values(|s: String| s@)
                    };
                    &&& final(self).focus_widgets@.map_values(|s: String| s@) == names
                    &&& final(self).focus_index == focus_after_keys(
                        old(self).focus_index as int,
                        names.len() as int,
                        key_state,
                    )
                    &&& final(self).finished == (old(self).finished || (key_state >> 10u32) & 1 != 0
                        || (key_state >> 9u32) & 1 != 0)
                    &&& final(self).active_page == old(self).active_page
                },
            },
    {
        match project {
            None => {},
            Some(p) => {
                if self.focus_widgets.len() == 0 {
                    self.scan_focusable_widgets(p);
                }
                self.handle_keys(key_state);
            },
        }
    }
}

/// The project used when a project file cannot be read: one visible root window named
/// after the project, 480 by 272 at the origin.
pub fn minimal_project(name: &str) -> (p: MProject)
    ensures
        p.name@ == name@,
        !p.has_script && !p.focus,
        p.root_windows@.len() == 1,
        widget_view(p.root_windows@[0]) == (WidgetV {
            name: name@,
            geometry: ("0"@, "0"@, "480"@, "272"@),
            pack_allocate_w: false,
            pack_allocate_h: false,
            ..default_widget(KindV::RootWindow)
        }),
{
    let root = Widget {
        kind: WidgetKind::RootWindow,
        name: String::from_str(name),
        has_script: false,
        is_component: false,
        can_focus: false,
        focus: false,
        visible: true,
        visible_condition: 0,
        visible_compare: 0,
        geometry: (String::from_str("0"), String::from_str("0"), String::from_str("480"), String::from_str("272")),
        clip: false,
        children: Vec::new(),
        packable: false,
        pack_side: 0,
        pack_expand_x: false,
        pack_expand_y: false,
        pack_fill_x: false,
        pack_fill_y: false,
        pack_shrink_x: false,
        pack_shrink_y: false,
        pack_allocate_w: false,
        pack_allocate_h: false,
        is_face: false,
    };
    proof {
        lemma_widget_view(root);
        assert(widgets_view(root.children@) =~= Seq::<WidgetV>::empty());
    }
    let mut root_windows: Vec<Widget> = Vec::new();
    root_windows.push(root);
    MProject { name: String::from_str(name), has_script: false, focus: false, root_windows }
}

/// The files a project is looked for in, in order: under the assets root, then under
/// the default assets directory.
pub fn project_file_paths(root: &str, name: &str) -> (r: (String, String))
    ensures
        r.0@ == root@ + "\\projects\\gt5m\\"@ + name@ + "\\"@ + name@ + ".mproject"@,
        r.1@ == "assets\\projects\\gt5m\\"@ + name@ + "\\"@ + name@ + ".mproject"@,
{
    let mut tail = String::from_str(name);
    tail.append("\\");
    tail.append(name);
    tail.append(".mproject");
    let mut a = String::from_str(root);
    a.append("\\projects\\gt5m\\");
    a.append(tail.as_str());
    let mut b = String::from_str("assets\\projects\\gt5m\\");
    b.append(tail.as_str());
    (a, b)
}

/// No path from `w` down through its children is longer than `h` levels.
pub open spec fn fits_depth(w: WidgetV, h: int) -> bool
    decreases w,
{
    w.children.len() == 0 || (h >= 1 && fit_list(w.children, h - 1))
}

/// Every widget of `ws` fits within `h` levels below it (see `fits_depth`).
pub open spec fn fit_list(ws: Seq<WidgetV>, h: int) -> bool
    decreases ws,
{
    ws.len() == 0 || (fit_list(ws.drop_last(), h) && fits_depth(ws.last(), h))
}

proof fn lemma_fit_list_index(ws: Seq<WidgetV>, h: int)
    ensures
        fit_list(ws, h) <==> all_fit(ws, h),
    decreases ws.len(),
{
    if ws.len() > 0 {
        lemma_fit_list_index(ws.drop_last(), h);
        if all_fit(ws, h) {
            assert forall|i: int| 0 <= i < ws.drop_last().len() implies #[trigger] fits_depth(ws.drop_last()[i], h) by {
                assert(ws.drop_last()[i] == ws[i]);
            }
            assert(fits_depth(ws[ws.len() - 1], h));
        }
        if fit_list(ws, h) {
            assert forall|i: int| 0 <= i < ws.len() implies #[trigger] fits_depth(ws[i], h) by {
                if i < ws.len() - 1 {
                    assert(ws.drop_last()[i] == ws[i]);
                }
            }
        }
    }
}

/// Every widget of `ws` fits within `h` levels below it.
pub open spec fn all_fit(ws: Seq<WidgetV>, h: int) -> bool {
    forall|i: int| 0 <= i < ws.len() ==> #[trigger] fits_depth(ws[i], h)
}

proof fn lemma_fits_same_children(w: WidgetV, w2: WidgetV, h: int)
    requires
        w2.children == w.children,
        fits_depth(w, h),
    ensures
        fits_depth(w2, h),
{

}

proof fn lemma_widgets_from_fit(ts: Seq<Seq<char>>, p: int, d: int)
    requires
        1 <= d <= 41,
    ensures
        all_fit(widgets_from(ts, p, d).0, 41 - d),
    decreases (if p < ts.len() { ts.len() - p } else { 0 }), 3int,
{
    if 0 <= p < ts.len() && ts[p] != "}"@ {
        let (w, q) = widget_at(ts, p, d);
        let next = if q > p { q } else { p + 1 };
        lemma_widget_at_fit(ts, p, d);
        lemma_widgets_from_fit(ts, next, d);
        let rest = widgets_from(ts, next, d);
        let all = seq![w] + rest.0;
        assert forall|i: int| 0 <= i < all.len() implies #[trigger] fits_depth(all[i], 41 - d) by {
            if i > 0 {
                assert(all[i] == rest.0[i - 1]);
            }
        }
    }
}

proof fn lemma_widget_at_fit(ts: Seq<Seq<char>>, p: int, d: int)
    requires
        1 <= d <= 41,
    ensures
        fits_depth(widget_at(ts, p, d).0, 41 - d),
    decreases (if p < ts.len() { ts.len() - p } else { 0 }), 2int,
{
    let q = after_expect(ts, p + 1, "{"@);
    let w = default_widget(kind_of(token_text(ts, p)));
    assert(fits_depth(w, 41 - d));
    lemma_fields_from_fit(ts, q, d, w);
}

proof fn lemma_fields_from_fit(ts: Seq<Seq<char>>, p: int, d: int, w: WidgetV)
    requires
        1 <= d <= 41,
        fits_depth(w, 41 - d),
    ensures
        fits_depth(fields_from(ts, p, d, w).0, 41 - d),
    decreases (if p < ts.len() { ts.len() - p } else { 0 }), 1int,
{
    if 0 <= p < ts.len() && ts[p] != "}"@ {
        let (w2, q) = field_at(ts, p, d, w);
        lemma_field_at_fit(ts, p, d, w);
        lemma_fields_from_fit(ts, if q > p { q } else { p + 1 }, d, w2);
    }
}

proof fn lemma_field_at_fit(ts: Seq<Seq<char>>, p: int, d: int, w: WidgetV)
    requires
        1 <= d <= 41,
        fits_depth(w, 41 - d),
    ensures
        fits_depth(field_at(ts, p, d, w).0, 41 - d),
    decreases (if p < ts.len() { ts.len() - p } else { 0 }), 0int,
{
    if 0 <= p < ts.len() {
        let f = ts[p];
        let q = p + 1;
        if f == "children"@ {
            let q4 = list_open(ts, q);
            if d <= 40 {
                lemma_widgets_from_fit(ts, q4, d + 1);
                let cs = widgets_from(ts, q4, d + 1).0;
                lemma_fit_list_index(cs, 40 - d);
            }
        } else {
            reveal(set_flag);
            reveal(set_number);
            reveal(set_text);
            lemma_fits_same_children(w, field_at(ts, p, d, w).0, 41 - d);
        }
    }
}

/// Child lists nest at most 41 deep: whatever the tokens, no path from a root window of
/// a project read at the top level goes down more than 40 levels.
pub proof fn lemma_tree_depth_limited(ts: Seq<Seq<char>>, p: int)
    ensures
        all_fit(project_at(ts, p, 0).0.root_windows, 40),
{
    lemma_project_fields_fit(ts, after_expect(ts, after_expect(ts, p, "Project"@), "{"@), empty_project());
}

proof fn lemma_project_fields_fit(ts: Seq<Seq<char>>, p: int, pr: ProjectV)
    requires
        all_fit(pr.root_windows, 40),
    ensures
        all_fit(project_fields(ts, p, 0, pr).0.root_windows, 40),
    decreases (if p < ts.len() { ts.len() - p } else { 0 }),
{
    if 0 <= p < ts.len() && ts[p] != "}"@ {
        let (pr2, next) = project_field(ts, ts[p], p + 1, 0, pr);
        if ts[p] == "children"@ {
            lemma_widgets_from_fit(ts, list_open(ts, p + 1), 1);
        }
        lemma_project_fields_fit(ts, if next > p { next } else { p + 1 }, pr2);
    }
}

} // verus!
