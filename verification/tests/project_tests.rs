use gtpsp::project::{minimal_project, project_file_paths, type_to_kind, MProject, Widget, WidgetKind};
use gtpsp::ui::{tokenize, FocusState, MProjectParser};

const SOURCE: &str = r#"
Project {
    name "arcade"
    has_script digit { 1 }
    children [ 1 ] {
        RootWindow {
            name "TopRoot"
            geometry rectangle { 0 10.5 480 272 }
            children [ 3 ] {
                TextFace {
                    name "Title"
                    text "Hello"
                    text_color RGBA { 255 0 0 255 }
                    align 4 }
                }
                OptionMenu { name "Mode" }
                ColorFace {
                    name "Back"
                    color [ 2 ] { RGBA { 1 2 3 4 } RGBA { 5 6 7 8 } }
                    can_focus 1 }
                    actor_list [ 1 ] {
                        ScalarInterpolator { name string "fade" sections [ 1 ] { MScalarSection { end_value float 1.0 } } }
                    }
                }
            }
        }
    }
}
"#;

fn parse(src: &str) -> MProject {
    let mut p = MProjectParser::new(tokenize(src));
    p.parse_project()
}

fn color(w: &Widget) -> Vec<(u8, u8, u8, u8)> {
    match &w.kind {
        WidgetKind::ColorFace { color } => color.iter().map(|c| (c.r, c.g, c.b, c.a)).collect(),
        _ => panic!("not a colour face"),
    }
}

#[test]
fn a_project_reads_into_its_widget_tree() {
    let p = parse(SOURCE);
    assert_eq!(p.name, "arcade");
    assert!(p.has_script);
    assert!(!p.focus);
    assert_eq!(p.root_windows.len(), 1);
    let root = &p.root_windows[0];
    assert!(matches!(root.kind, WidgetKind::RootWindow));
    assert_eq!(root.name, "TopRoot");
    assert_eq!(root.geometry, ("0".to_string(), "10.5".to_string(), "480".to_string(), "272".to_string()));
    assert_eq!(root.children.len(), 3);
    let title = &root.children[0];
    match &title.kind {
        WidgetKind::TextFace { text, font, color, shadow, shadow_value, align } => {
            assert_eq!(text, "Hello");
            assert_eq!(font, "default");
            assert_eq!((color.r, color.g, color.b, color.a), (255, 0, 0, 255));
            assert_eq!((shadow.r, shadow.g, shadow.b, shadow.a), (0, 0, 0, 128));
            assert_eq!((*shadow_value, *align), (0, 4));
        }
        _ => panic!("not a text face"),
    }
    assert!(matches!(root.children[1].kind, WidgetKind::OptionMenu));
    assert_eq!(root.children[1].name, "Mode");
    let back = &root.children[2];
    assert_eq!(back.name, "Back");
    assert!(back.can_focus);
    assert!(back.visible && back.pack_allocate_w && !back.is_face);
    assert_eq!(color(back), vec![(1, 2, 3, 4), (5, 6, 7, 8)]);
}

#[test]
fn focusable_widgets_are_listed_in_order() {
    let p = parse(SOURCE);
    let mut f = FocusState::new();
    f.focus_index = 1;
    f.scan_focusable_widgets(&p);
    assert_eq!(f.focus_widgets, vec!["Mode".to_string(), "Back".to_string()]);
    assert_eq!(f.focus_index, 1);
}

#[test]
fn unknown_types_and_fields_are_passed_over() {
    let p = parse("Project { name \"x\" weird 7 children [ 1 ] { Gizmo { name \"g\" } } }");
    assert_eq!(p.name, "x");
    assert_eq!(p.root_windows.len(), 1);
    match &p.root_windows[0].kind {
        WidgetKind::Unknown(n) => assert_eq!(n, "Gizmo"),
        _ => panic!("expected an unknown kind"),
    }
    assert!(matches!(type_to_kind("ListBox"), WidgetKind::ListBox));
}

#[test]
fn truncated_input_stops_at_the_end() {
    let p = parse("Project { name \"t\" children [ 1 ] { SBox { color [ 1 ] { RGBA { 1 2");
    assert_eq!(p.name, "t");
    assert_eq!(p.root_windows.len(), 1);
    assert!(parse("").root_windows.is_empty());
}

#[test]
fn deep_nesting_is_cut_off() {
    let mut src = String::from("Project { children [ 1 ] { ");
    for _ in 0..45 {
        src.push_str("VBox { children [ 1 ] { ");
    }
    let p = parse(&src);
    let mut depth = 0;
    let mut w = &p.root_windows[0];
    while let Some(c) = w.children.first() {
        w = c;
        depth += 1;
    }
    assert_eq!(depth, 40);
}

#[test]
fn a_missing_project_gets_one_root_window() {
    let p = minimal_project("arcade");
    assert_eq!(p.name, "arcade");
    assert_eq!(p.root_windows.len(), 1);
    let w = &p.root_windows[0];
    assert_eq!(w.name, "arcade");
    assert!(w.visible && !w.pack_allocate_w && !w.pack_allocate_h);
    assert_eq!(w.geometry.2, "480");
}

#[test]
fn project_files_are_looked_for_in_two_places() {
    let (a, b) = project_file_paths("data", "arcade");
    assert_eq!(a, "data\\projects\\gt5m\\arcade\\arcade.mproject");
    assert_eq!(b, "assets\\projects\\gt5m\\arcade\\arcade.mproject");
}

#[test]
fn an_update_lists_the_widgets_then_moves_the_focus() {
    let p = parse(SOURCE);
    let mut f = FocusState::new();
    f.update(None, 1 << 4);
    assert!(f.focus_widgets.is_empty() && f.focus_index == 0);
    f.update(Some(&p), 1 << 4);
    assert_eq!(f.focus_widgets, vec!["Mode".to_string(), "Back".to_string()]);
    assert_eq!(f.focus_index, 1);
    f.update(Some(&p), 1 << 10);
    assert!(f.is_finished());
    assert_eq!(f.focused_widget(), Some("Back".to_string()));
}
