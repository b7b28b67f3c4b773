//! Arranging rows of text and rectangles, and writing them out.
use evp::render_svg::{
    append_newlines_to_final_tspans, group_text_elements_by_row_and_time,
    group_text_elements_final, optimize_bg_rect_scroll, optimize_bg_rects, optimize_rows,
    optimize_tspans, AnimatedProperty, BgRect, ColorClasses, StyleKeyframe, TSpan, TextElement,
};
use evp::single::ONE;

#[test]
fn test_box_drawing_svg_rendering() {
    let mut te = TextElement {
        y: 20,
        y_animation: None,
        start_ms: 0,
        end_ms: 1000,
        tspans: vec![
            TSpan {
                x_coords: vec![100 * ONE],
                text: "╭".to_string(),
                fg: [255, 255, 255],
                bold: false,
                italic: false,
                underline: false,
                strikethrough: false,
                is_box: true,
                scale_y: ONE,
                cell_center_y_offset: 0,
                char_center_y_offset: 0,
                cell_w: 10,
                cell_h: 20,
                baseline: 15,
                letter_spacing: 0,
                start_ms: 0,
                end_ms: 1000,
                style_animations: Vec::new(),
                style_history: Vec::new(),
            },
            TSpan {
                x_coords: vec![110 * ONE],
                text: "─".to_string(),
                fg: [255, 255, 255],
                bold: false,
                italic: false,
                underline: false,
                strikethrough: false,
                is_box: true,
                scale_y: ONE,
                cell_center_y_offset: 0,
                char_center_y_offset: 0,
                cell_w: 10,
                cell_h: 20,
                baseline: 15,
                letter_spacing: 0,
                start_ms: 0,
                end_ms: 1000,
                style_animations: Vec::new(),
                style_history: Vec::new(),
            },
            TSpan {
                x_coords: vec![120 * ONE],
                text: "╮".to_string(),
                fg: [255, 255, 255],
                bold: false,
                italic: false,
                underline: false,
                strikethrough: false,
                is_box: true,
                scale_y: ONE,
                cell_center_y_offset: 0,
                char_center_y_offset: 0,
                cell_w: 10,
                cell_h: 20,
                baseline: 15,
                letter_spacing: 0,
                start_ms: 0,
                end_ms: 1000,
                style_animations: Vec::new(),
                style_history: Vec::new(),
            },
        ],
    };

    // First, verify that optimize_tspans does NOT merge box drawing characters
    optimize_tspans(std::slice::from_mut(&mut te));
    assert_eq!(te.tspans.len(), 3);
    assert_eq!(te.tspans[0].text, "╭");
    assert_eq!(te.tspans[1].text, "─");
    assert_eq!(te.tspans[2].text, "╮");

    // Next, render to SVG string and inspect it
    let svg = te.to_svg_string(&ColorClasses::new(), 1000, 0, None);

    // The SVG should contain three individual text tags, each with textLength="10" and style="fill-opacity: 0"
    assert!(
        svg.contains(r#"x="100" y="20""#)
            && svg.contains(r#"textLength="10""#)
            && svg.contains(r#"style="fill-opacity: 0""#),
        "SVG does not contain correct transparent text tag for col 0: {}",
        svg
    );
    assert!(
        svg.contains(r#"x="110" y="20""#)
            && svg.contains(r#"textLength="10""#)
            && svg.contains(r#"style="fill-opacity: 0""#),
        "SVG does not contain correct transparent text tag for col 1: {}",
        svg
    );
    assert!(
        svg.contains(r#"x="120" y="20""#)
            && svg.contains(r#"textLength="10""#)
            && svg.contains(r#"style="fill-opacity: 0""#),
        "SVG does not contain correct transparent text tag for col 2: {}",
        svg
    );

    // The SVG should also contain the vector shape groups translated to the cell coordinates
    assert!(
        svg.contains(r#"<g transform="translate(100, 5)""#)
            && svg.contains("stroke-linejoin=\"round\""),
        "SVG does not contain vector shapes for col 0: {}",
        svg
    );
    assert!(
        svg.contains(r#"<g transform="translate(110, 5)""#)
            && svg.contains("stroke-linecap=\"butt\""),
        "SVG does not contain vector shapes for col 1: {}",
        svg
    );
    assert!(
        svg.contains(r#"<g transform="translate(120, 5)""#)
            && svg.contains("stroke-linejoin=\"round\""),
        "SVG does not contain vector shapes for col 2: {}",
        svg
    );
}

#[test]
fn test_optimize_tspans() {
    let mut te = TextElement {
        y: 20,
        y_animation: None,
        start_ms: 0,
        end_ms: 1000,
        tspans: vec![
            TSpan {
                x_coords: vec![10 * ONE],
                text: "a".to_string(),
                fg: [255, 0, 0],
                bold: false,
                italic: false,
                underline: false,
                strikethrough: false,
                is_box: false,
                scale_y: ONE,
                cell_center_y_offset: 0,
                char_center_y_offset: 0,
                cell_w: 10,
                cell_h: 20,
                baseline: 15,
                letter_spacing: 0,
                start_ms: 0,
                end_ms: 1000,
                style_animations: Vec::new(),
                style_history: Vec::new(),
            },
            TSpan {
                x_coords: vec![20 * ONE],
                text: "b".to_string(),
                fg: [255, 0, 0],
                bold: false,
                italic: false,
                underline: false,
                strikethrough: false,
                is_box: false,
                scale_y: ONE,
                cell_center_y_offset: 0,
                char_center_y_offset: 0,
                cell_w: 10,
                cell_h: 20,
                baseline: 15,
                letter_spacing: 0,
                start_ms: 0,
                end_ms: 1000,
                style_animations: Vec::new(),
                style_history: Vec::new(),
            },
        ],
    };
    optimize_tspans(std::slice::from_mut(&mut te));
    assert_eq!(te.tspans.len(), 1);
    assert_eq!(te.tspans[0].text, "ab");
    assert_eq!(te.tspans[0].x_coords, vec![10 * ONE, 20 * ONE]);
}

#[test]
fn test_optimize_tspans_temporal_merge() {
    let mut te = TextElement {
        y: 20,
        y_animation: None,
        start_ms: 0,
        end_ms: 200,
        tspans: vec![
            TSpan {
                x_coords: vec![10 * ONE],
                text: "a".to_string(),
                fg: [255, 0, 0],
                bold: false,
                italic: false,
                underline: false,
                strikethrough: false,
                is_box: false,
                scale_y: ONE,
                cell_center_y_offset: 0,
                char_center_y_offset: 0,
                cell_w: 10,
                cell_h: 20,
                baseline: 15,
                letter_spacing: 0,
                start_ms: 0,
                end_ms: 100,
                style_animations: Vec::new(),
                style_history: Vec::new(),
            },
            TSpan {
                x_coords: vec![10 * ONE],
                text: "a".to_string(),
                fg: [0, 255, 0],
                bold: false,
                italic: false,
                underline: false,
                strikethrough: false,
                is_box: false,
                scale_y: ONE,
                cell_center_y_offset: 0,
                char_center_y_offset: 0,
                cell_w: 10,
                cell_h: 20,
                baseline: 15,
                letter_spacing: 0,
                start_ms: 100,
                end_ms: 200,
                style_animations: Vec::new(),
                style_history: Vec::new(),
            },
        ],
    };
    optimize_tspans(std::slice::from_mut(&mut te));
    assert_eq!(te.tspans.len(), 1);
    assert_eq!(te.tspans[0].text, "a");
    assert_eq!(te.tspans[0].x_coords, vec![10 * ONE]);
    assert_eq!(te.tspans[0].style_animations.len(), 1);
    let anim = &te.tspans[0].style_animations[0];
    assert_eq!(anim.begin_ms, 0);
    assert_eq!(anim.dur_ms, 200);
    match &anim.property {
        AnimatedProperty::Fg(kf) => {
            assert_eq!(kf, &vec![(0, [255, 0, 0]), (100, [0, 255, 0])]);
        }
        _ => panic!("Expected Fg animation"),
    }
}

#[test]
fn test_optimize_tspans_dont_merge_style_history_horizontally() {
    let mut te = TextElement {
        y: 20,
        y_animation: None,
        start_ms: 20,
        end_ms: 200,
        tspans: vec![
            TSpan {
                x_coords: vec![20 * ONE],
                text: "-".to_string(),
                fg: [255, 255, 255],
                bold: false,
                italic: false,
                underline: false,
                strikethrough: false,
                is_box: false,
                scale_y: ONE,
                cell_center_y_offset: 0,
                char_center_y_offset: 0,
                cell_w: 10,
                cell_h: 20,
                baseline: 15,
                letter_spacing: 0,
                start_ms: 20,
                end_ms: 200,
                style_animations: Vec::new(),
                style_history: vec![
                    StyleKeyframe {
                        start_ms: 20,
                        fg: [255, 255, 255],
                        bold: false,
                        italic: false,
                        underline: false,
                        strikethrough: false,
                    },
                    StyleKeyframe {
                        start_ms: 100,
                        fg: [255, 255, 255],
                        bold: true,
                        italic: false,
                        underline: true,
                        strikethrough: false,
                    },
                ],
            },
            TSpan {
                x_coords: vec![30 * ONE],
                text: "b".to_string(),
                fg: [255, 255, 255],
                bold: false,
                italic: false,
                underline: false,
                strikethrough: false,
                is_box: false,
                scale_y: ONE,
                cell_center_y_offset: 0,
                char_center_y_offset: 0,
                cell_w: 10,
                cell_h: 20,
                baseline: 15,
                letter_spacing: 0,
                start_ms: 20,
                end_ms: 200,
                style_animations: Vec::new(),
                style_history: Vec::new(),
            },
        ],
    };
    optimize_tspans(std::slice::from_mut(&mut te));
    // A changing style is not merged with its neighbour.
    assert_eq!(te.tspans.len(), 2);
    assert_eq!(te.tspans[0].text, "-");
    assert_eq!(te.tspans[1].text, "b");
}

#[test]
fn test_optimize_tspans_skips_surrogate_pairs() {
    let mut te = TextElement {
        y: 20,
        y_animation: None,
        start_ms: 0,
        end_ms: 1000,
        tspans: vec![
            TSpan {
                x_coords: vec![10 * ONE],
                text: "🯁".to_string(),
                fg: [255, 0, 0],
                bold: false,
                italic: false,
                underline: false,
                strikethrough: false,
                is_box: false,
                scale_y: ONE,
                cell_center_y_offset: 0,
                char_center_y_offset: 0,
                cell_w: 10,
                cell_h: 20,
                baseline: 15,
                letter_spacing: 0,
                start_ms: 0,
                end_ms: 1000,
                style_animations: Vec::new(),
                style_history: Vec::new(),
            },
            TSpan {
                x_coords: vec![20 * ONE],
                text: "🯂".to_string(),
                fg: [255, 0, 0],
                bold: false,
                italic: false,
                underline: false,
                strikethrough: false,
                is_box: false,
                scale_y: ONE,
                cell_center_y_offset: 0,
                char_center_y_offset: 0,
                cell_w: 10,
                cell_h: 20,
                baseline: 15,
                letter_spacing: 0,
                start_ms: 0,
                end_ms: 1000,
                style_animations: Vec::new(),
                style_history: Vec::new(),
            },
        ],
    };
    optimize_tspans(std::slice::from_mut(&mut te));
    // Should not be merged because they contain surrogate pairs (code points > 0xFFFF)
    assert_eq!(te.tspans.len(), 2);
    assert_eq!(te.tspans[0].text, "🯁");
    assert_eq!(te.tspans[1].text, "🯂");
}

#[test]
fn test_optimize_bg_rects() {
    let mut rects = vec![
        BgRect {
            x: 10,
            y: 20,
            w: 10,
            h: 20,
            fill: [255, 0, 0],
            start_ms: 0,
            end_ms: 1000,
            clip_path: None,
            y_animation: None,
        },
        BgRect {
            x: 20,
            y: 20,
            w: 10,
            h: 20,
            fill: [255, 0, 0],
            start_ms: 0,
            end_ms: 1000,
            clip_path: None,
            y_animation: None,
        },
    ];
    optimize_bg_rects(&mut rects);
    assert_eq!(rects.len(), 1);
    assert_eq!(rects[0].x, 10);
    assert_eq!(rects[0].w, 20);
}

#[test]
fn test_optimize_bg_rect_scroll() {
    let mut rects = vec![
        BgRect {
            x: 10,
            y: 20,
            w: 10,
            h: 20,
            fill: [255, 0, 0],
            start_ms: 0,
            end_ms: 500,
            clip_path: None,
            y_animation: None,
        },
        BgRect {
            x: 10,
            y: 40,
            w: 10,
            h: 20,
            fill: [255, 0, 0],
            start_ms: 500,
            end_ms: 1000,
            clip_path: None,
            y_animation: None,
        },
    ];
    optimize_bg_rect_scroll(&mut rects);
    assert_eq!(rects.len(), 1);
    assert_eq!(rects[0].start_ms, 0);
    assert_eq!(rects[0].end_ms, 1000);
    let anim = rects[0].y_animation.as_ref().unwrap();
    assert_eq!(anim.begin_ms, 0);
    assert_eq!(anim.dur_ms, 1000);
    assert_eq!(anim.segments, vec![(20, 0), (40, 500)]);
}

#[test]
fn test_optimize_rows() {
    let mut te_list = vec![
        TextElement {
            y: 20,
            y_animation: None,
            start_ms: 0,
            end_ms: 500,
            tspans: vec![TSpan {
                x_coords: vec![10 * ONE],
                text: "hello".to_string(),
                fg: [255, 0, 0],
                bold: false,
                italic: false,
                underline: false,
                strikethrough: false,
                is_box: false,
                scale_y: ONE,
                cell_center_y_offset: 0,
                char_center_y_offset: 0,
                cell_w: 10,
                cell_h: 20,
                baseline: 15,
                letter_spacing: 0,
                start_ms: 0,
                end_ms: 500,
                style_animations: Vec::new(),
                style_history: Vec::new(),
            }],
        },
        TextElement {
            y: 40,
            y_animation: None,
            start_ms: 500,
            end_ms: 1000,
            tspans: vec![TSpan {
                x_coords: vec![10 * ONE],
                text: "hello".to_string(),
                fg: [255, 0, 0],
                bold: false,
                italic: false,
                underline: false,
                strikethrough: false,
                is_box: false,
                scale_y: ONE,
                cell_center_y_offset: 0,
                char_center_y_offset: 0,
                cell_w: 10,
                cell_h: 20,
                baseline: 15,
                letter_spacing: 0,
                start_ms: 500,
                end_ms: 1000,
                style_animations: Vec::new(),
                style_history: Vec::new(),
            }],
        },
    ];
    optimize_rows(&mut te_list);
    assert_eq!(te_list.len(), 1);
    assert_eq!(te_list[0].start_ms, 0);
    assert_eq!(te_list[0].end_ms, 1000);
    let anim = te_list[0].y_animation.as_ref().unwrap();
    assert_eq!(anim.begin_ms, 0);
    assert_eq!(anim.dur_ms, 1000);
    assert_eq!(anim.segments, vec![(20, 0), (40, 500)]);
}

#[test]
fn test_group_text_elements_by_row_and_time() {
    let mut elements = vec![
        TextElement {
            y: 20,
            y_animation: None,
            start_ms: 100,
            end_ms: 200,
            tspans: vec![TSpan {
                x_coords: vec![10 * ONE],
                text: "a".to_string(),
                fg: [255, 0, 0],
                bold: false,
                italic: false,
                underline: false,
                strikethrough: false,
                is_box: false,
                scale_y: ONE,
                cell_center_y_offset: 0,
                char_center_y_offset: 0,
                cell_w: 10,
                cell_h: 20,
                baseline: 15,
                letter_spacing: 0,
                start_ms: 100,
                end_ms: 200,
                style_animations: Vec::new(),
                style_history: Vec::new(),
            }],
        },
        TextElement {
            y: 20,
            y_animation: None,
            start_ms: 100,
            end_ms: 200,
            tspans: vec![TSpan {
                x_coords: vec![20 * ONE],
                text: "b".to_string(),
                fg: [255, 0, 0],
                bold: false,
                italic: false,
                underline: false,
                strikethrough: false,
                is_box: false,
                scale_y: ONE,
                cell_center_y_offset: 0,
                char_center_y_offset: 0,
                cell_w: 10,
                cell_h: 20,
                baseline: 15,
                letter_spacing: 0,
                start_ms: 100,
                end_ms: 200,
                style_animations: Vec::new(),
                style_history: Vec::new(),
            }],
        },
        TextElement {
            y: 40,
            y_animation: None,
            start_ms: 100,
            end_ms: 200,
            tspans: vec![TSpan {
                x_coords: vec![10 * ONE],
                text: "c".to_string(),
                fg: [255, 0, 0],
                bold: false,
                italic: false,
                underline: false,
                strikethrough: false,
                is_box: false,
                scale_y: ONE,
                cell_center_y_offset: 0,
                char_center_y_offset: 0,
                cell_w: 10,
                cell_h: 20,
                baseline: 15,
                letter_spacing: 0,
                start_ms: 100,
                end_ms: 200,
                style_animations: Vec::new(),
                style_history: Vec::new(),
            }],
        },
    ];

    group_text_elements_by_row_and_time(&mut elements);
    assert_eq!(elements.len(), 2);

    // Element at y=20 (a and b should be merged)
    assert_eq!(elements[0].y, 20);
    assert_eq!(elements[0].start_ms, 100);
    assert_eq!(elements[0].end_ms, 200);
    assert_eq!(elements[0].tspans.len(), 2);
    assert_eq!(elements[0].tspans[0].text, "a");
    assert_eq!(elements[0].tspans[1].text, "b");

    // Element at y=40 (c should remain separate)
    assert_eq!(elements[1].y, 40);
    assert_eq!(elements[1].tspans.len(), 1);
    assert_eq!(elements[1].tspans[0].text, "c");
}

#[test]
fn test_group_text_elements_final() {
    let mut elements = vec![
        TextElement {
            y: 20,
            y_animation: None,
            start_ms: 100,
            end_ms: 200,
            tspans: vec![TSpan {
                x_coords: vec![10 * ONE],
                text: "a".to_string(),
                fg: [255, 0, 0],
                bold: false,
                italic: false,
                underline: false,
                strikethrough: false,
                is_box: false,
                scale_y: ONE,
                cell_center_y_offset: 0,
                char_center_y_offset: 0,
                cell_w: 10,
                cell_h: 20,
                baseline: 15,
                letter_spacing: 0,
                start_ms: 100,
                end_ms: 200,
                style_animations: Vec::new(),
                style_history: Vec::new(),
            }],
        },
        TextElement {
            y: 20,
            y_animation: None,
            start_ms: 300,
            end_ms: 400,
            tspans: vec![TSpan {
                x_coords: vec![20 * ONE],
                text: "b".to_string(),
                fg: [255, 0, 0],
                bold: false,
                italic: false,
                underline: false,
                strikethrough: false,
                is_box: false,
                scale_y: ONE,
                cell_center_y_offset: 0,
                char_center_y_offset: 0,
                cell_w: 10,
                cell_h: 20,
                baseline: 15,
                letter_spacing: 0,
                start_ms: 300,
                end_ms: 400,
                style_animations: Vec::new(),
                style_history: Vec::new(),
            }],
        },
    ];

    group_text_elements_final(&mut elements);
    assert_eq!(elements.len(), 1);
    assert_eq!(elements[0].y, 20);
    assert_eq!(elements[0].start_ms, 100);
    assert_eq!(elements[0].end_ms, 400);
    assert_eq!(elements[0].tspans.len(), 2);
    assert_eq!(elements[0].tspans[0].text, "a");
    assert_eq!(elements[0].tspans[1].text, "b");
}

#[test]
fn test_append_newlines_to_final_tspans() {
    let mut te = TextElement {
        y: 20,
        y_animation: None,
        start_ms: 0,
        end_ms: 200,
        tspans: vec![
            TSpan {
                x_coords: vec![10 * ONE],
                text: "hello".to_string(),
                fg: [255, 0, 0],
                bold: false,
                italic: false,
                underline: false,
                strikethrough: false,
                is_box: false,
                scale_y: ONE,
                cell_center_y_offset: 0,
                char_center_y_offset: 0,
                cell_w: 10,
                cell_h: 20,
                baseline: 15,
                letter_spacing: 0,
                start_ms: 0,
                end_ms: 100,
                style_animations: Vec::new(),
                style_history: Vec::new(),
            },
            TSpan {
                x_coords: vec![10 * ONE],
                text: "hello".to_string(),
                fg: [0, 255, 0],
                bold: false,
                italic: false,
                underline: false,
                strikethrough: false,
                is_box: false,
                scale_y: ONE,
                cell_center_y_offset: 0,
                char_center_y_offset: 0,
                cell_w: 10,
                cell_h: 20,
                baseline: 15,
                letter_spacing: 0,
                start_ms: 100,
                end_ms: 200,
                style_animations: Vec::new(),
                style_history: Vec::new(),
            },
            TSpan {
                x_coords: vec![20 * ONE],
                text: "world".to_string(),
                fg: [0, 255, 0],
                bold: false,
                italic: false,
                underline: false,
                strikethrough: false,
                is_box: false,
                scale_y: ONE,
                cell_center_y_offset: 0,
                char_center_y_offset: 0,
                cell_w: 10,
                cell_h: 20,
                baseline: 15,
                letter_spacing: 0,
                start_ms: 100,
                end_ms: 200,
                style_animations: Vec::new(),
                style_history: Vec::new(),
            },
        ],
    };

    // The order in which rows are arranged.
    te.tspans.sort_by_key(|s| (s.x_coords[0], s.start_ms));

    append_newlines_to_final_tspans(std::slice::from_mut(&mut te));

    assert_eq!(te.tspans[0].text, "hello\n");
    assert_eq!(te.tspans[1].text, "hello");
    assert_eq!(te.tspans[2].text, "world\n");
}

#[test]
fn late_non_static_text_keeps_exact_end_time() {
    let te = TextElement {
        y: 20,
        y_animation: None,
        start_ms: 600,
        end_ms: 950,
        tspans: vec![TSpan {
            x_coords: vec![10 * ONE],
            text: "loop".to_string(),
            fg: [255, 255, 255],
            bold: false,
            italic: false,
            underline: false,
            strikethrough: false,
            is_box: false,
            scale_y: ONE,
            cell_center_y_offset: 0,
            char_center_y_offset: 0,
            cell_w: 10,
            cell_h: 20,
            baseline: 15,
            letter_spacing: 0,
            start_ms: 600,
            end_ms: 950,
            style_animations: Vec::new(),
            style_history: Vec::new(),
        }],
    };

    let svg = te.to_svg_string(&ColorClasses::new(), 1000, 0, None);
    assert!(svg.contains(r#"begin="t.begin+0.6" end="t.begin+0.95""#));
}
