//! What a document says of the ways that cursors and the mouse go.
use vstd::prelude::*;

use crate::messages;
use crate::pointer;
use crate::recording::MouseState;
use crate::render_svg::document;
use crate::render_svg::document::SvgDoc;
use crate::render_svg::elements::{CursorRect, MouseSpan};
use crate::render_svg::markup;
use crate::render_svg::motions;
use crate::render_svg::optimize;
use crate::render_svg::overlay;
use crate::render_svg::overlay::CursorByStart;
use crate::render_svg::text_markup;
use crate::render_svg::written;
use crate::single;
use crate::sort;
use crate::style::Rgb;
use crate::text;

verus! {

/// The values that something has from each of some moments on until the next one, without
/// those that change nothing.
pub open spec fn course<K>(b: Seq<u32>, value: spec_fn(int) -> K) -> Seq<(u32, K)> {
    optimize::changes(Seq::new((b.len() - 1) as nat, |k: int| (b[k], value(k))))
}

/// What an animation says: the values of a course and the moments of each, as parts of
/// the whole.
pub open spec fn animated<K>(
    head: Seq<char>,
    c: Seq<(u32, K)>,
    word: spec_fn(K) -> Seq<char>,
    total_ms: u32,
) -> Seq<char> {
    head + " calcMode=\"discrete\" values=\""@ + text::joined(
        Seq::new(c.len(), |i: int| word(c[i].1)),
        ";"@,
    ) + "\" keyTimes=\""@ + text::joined(
        Seq::new(c.len(), |i: int| markup::key_time_text(c[i].0, total_ms)),
        ";"@,
    ) + "\" dur=\""@ + markup::time_text(total_ms) + "\" begin=\""@ + "t.begin"@ + "\""@
}

pub open spec fn number_word(n: u32) -> Seq<char> {
    text::decimal(n as nat)
}

pub open spec fn shown_word(on: bool) -> Seq<char> {
    if on {
        "visible"@
    } else {
        "hidden"@
    }
}

/// The size of the arrow, which is smaller while a button is pressed.
pub open spec fn size_word(pressed: bool) -> Seq<char> {
    if pressed {
        "0.82"@
    } else {
        "1"@
    }
}

proof fn lemma_timed<K>(
    head: Seq<char>,
    c: Seq<(u32, K)>,
    word: spec_fn(K) -> Seq<char>,
    total_ms: u32,
)
    ensures
        ({
            let t = overlay::timed_animation(
                head,
                text::joined(Seq::new(c.len(), |i: int| word(c[i].1)), ";"@),
                overlay::change_times(c),
                total_ms,
            );
            &&& t == animated(head, c, word, total_ms) + " fill=\"freeze\"/>"@
            &&& written::says(t, animated(head, c, word, total_ms))
        }),
{
    let v = text::joined(Seq::new(c.len(), |i: int| word(c[i].1)), ";"@);
    let times = overlay::change_times(c);
    let listed = Seq::new(times.len(), |i: int| markup::key_time_text(times[i], total_ms));
    assert(listed =~= Seq::new(c.len(), |i: int| markup::key_time_text(c[i].0, total_ms)));
    let k = text::joined(listed, ";"@);
    let tail = " fill=\"freeze\"/>"@;
    let d = markup::discrete_text(v, k, markup::time_text(total_ms), "t.begin"@);
    assert(head + d =~= animated(head, c, word, total_ms));
    written::lemma_says(Seq::empty(), head + d, tail);
}

proof fn lemma_number_animation(head: Seq<char>, c: Seq<(u32, u32)>, total_ms: u32)
    requires
        c.len() != 1,
    ensures
        overlay::number_animation(head, c, total_ms).len() == 1,
        written::says(
            overlay::number_animation(head, c, total_ms)[0],
            animated(head, c, |n: u32| number_word(n), total_ms),
        ),
{
    let word = |n: u32| number_word(n);
    let values = overlay::change_values(c);
    assert(Seq::new(values.len(), |i: int| text::decimal(values[i] as nat)) =~= Seq::new(
        c.len(),
        |i: int| word(c[i].1),
    ));
    lemma_timed(head, c, word, total_ms);
}

proof fn lemma_shown_animation(c: Seq<(u32, bool)>, total_ms: u32)
    requires
        c.len() != 1,
    ensures
        overlay::shown_animation(c, total_ms) == seq![
            animated(
                "  <animate attributeName=\"visibility\""@,
                c,
                |on: bool| shown_word(on),
                total_ms,
            ) + " fill=\"freeze\"/>"@,
        ],
        written::says(
            overlay::shown_animation(c, total_ms)[0],
            animated(
                "  <animate attributeName=\"visibility\""@,
                c,
                |on: bool| shown_word(on),
                total_ms,
            ),
        ),
{
    let word = |on: bool| shown_word(on);
    let values = overlay::change_values(c);
    assert(Seq::new(
        values.len(),
        |i: int| text_markup::word(values[i], "visible"@, "hidden"@),
    ) =~= Seq::new(c.len(), |i: int| word(c[i].1)));
    lemma_timed("  <animate attributeName=\"visibility\""@, c, word, total_ms);
}

proof fn lemma_moments(v: Seq<CursorRect>, total_ms: u32)
    ensures
        overlay::cursor_moments(v, total_ms).len() > 0,
    decreases v.len(),
{
    if v.len() > 0 {
        lemma_moments(v.drop_last(), total_ms);
    }
}

proof fn lemma_mouse_moments(v: Seq<MouseSpan>, total_ms: u32)
    ensures
        overlay::mouse_moments(v, total_ms).len() > 0,
    decreases v.len(),
{
    if v.len() > 0 {
        lemma_mouse_moments(v.drop_last(), total_ms);
    }
}

/// The rectangle of cursors that are alike goes with them: it says in which columns and on
/// which lines they are and while which times it is visible, each either as one value or
/// from moment to moment.
pub proof fn lemma_cursor_course(list: Seq<CursorRect>, key: (u32, u32, Rgb), total_ms: u32)
    ensures
        ({
            let b = sort::distinct_ascending(overlay::cursor_moments(list, total_ms));
            let xs = course(b, |k: int| overlay::cursor_state(list, b, k).0);
            let ys = course(b, |k: int| overlay::cursor_state(list, b, k).1);
            let shown = course(b, |k: int| overlay::cursor_state(list, b, k).2);
            let s = overlay::cursor_group_svg(list, key, total_ms);
            let word = |n: u32| number_word(n);
            if b.len() == 2 && overlay::cursor_state(list, b, 0).2 {
                written::says(
                    s,
                    " x=\""@ + number_word(overlay::cursor_state(list, b, 0).0) + "\" y=\""@
                        + number_word(overlay::cursor_state(list, b, 0).1) + "\""@,
                )
            } else {
                &&& if xs.len() == 1 {
                    written::says(s, " x=\""@ + number_word(xs[0].1) + "\""@)
                } else {
                    written::says(
                        s,
                        animated("  <animate attributeName=\"x\""@, xs, word, total_ms),
                    )
                }
                &&& if ys.len() == 1 {
                    written::says(s, " y=\""@ + number_word(ys[0].1) + "\""@)
                } else {
                    written::says(
                        s,
                        animated("  <animate attributeName=\"y\""@, ys, word, total_ms),
                    )
                }
                &&& shown.len() != 1 ==> written::says(
                    s,
                    animated(
                        "  <animate attributeName=\"visibility\""@,
                        shown,
                        |on: bool| shown_word(on),
                        total_ms,
                    ),
                )
            }
        }),
{
    let b = sort::distinct_ascending(overlay::cursor_moments(list, total_ms));
    lemma_moments(list, total_ms);
    sort::lemma_distinct_ascending(overlay::cursor_moments(list, total_ms));
    let n = (b.len() - 1) as nat;
    let times = b.drop_last();
    assert(markup::paired(times, overlay::cursor_xs(list, b, n)) =~= Seq::new(
        n,
        |k: int| (b[k], (|k: int| overlay::cursor_state(list, b, k).0)(k)),
    ));
    assert(markup::paired(times, overlay::cursor_ys(list, b, n)) =~= Seq::new(
        n,
        |k: int| (b[k], (|k: int| overlay::cursor_state(list, b, k).1)(k)),
    ));
    assert(markup::paired(times, overlay::cursor_shown(list, b, n)) =~= Seq::new(
        n,
        |k: int| (b[k], (|k: int| overlay::cursor_state(list, b, k).2)(k)),
    ));
    let xs = course(b, |k: int| overlay::cursor_state(list, b, k).0);
    let ys = course(b, |k: int| overlay::cursor_state(list, b, k).1);
    let shown = course(b, |k: int| overlay::cursor_state(list, b, k).2);
    let s = overlay::cursor_group_svg(list, key, total_ms);
    let none = Seq::<char>::empty();
    if n == 1 && overlay::cursor_state(list, b, 0).2 {
        reveal_strlit("<rect x=\"");
        reveal_strlit("<rect");
        reveal_strlit(" x=\"");
        assert("<rect x=\""@ =~= "<rect"@ + " x=\""@);
        let place = " x=\""@ + number_word(overlay::cursor_state(list, b, 0).0) + "\" y=\""@
            + number_word(overlay::cursor_state(list, b, 0).1) + "\""@;
        let rest = overlay::cursor_box(key) + "/>"@;
        assert(s =~= "<rect"@ + place + rest);
        written::lemma_says("<rect"@, place, rest);
    } else {
        let ax = overlay::fixed_attribute(" x=\""@, xs);
        let ay = overlay::fixed_attribute(" y=\""@, ys);
        let mx = overlay::number_animation("  <animate attributeName=\"x\""@, xs, total_ms);
        let my = overlay::number_animation("  <animate attributeName=\"y\""@, ys, total_ms);
        let ms = overlay::shown_animation(shown, total_ms);
        let moves = mx + my + ms;
        let class = if shown.len() == 1 && shown[0].1 {
            ""@
        } else {
            " class=\"h\""@
        };
        let front = "<rect"@ + ax + ay + overlay::cursor_box(key) + class;
        let end = if moves.len() == 0 {
            "/>"@
        } else {
            ">\n"@ + text::joined(moves, "\n"@) + "\n</rect>\n"@
        };
        assert(s =~= front + end);
        assert(front =~= "<rect"@ + ax + (ay + overlay::cursor_box(key) + class));
        assert(front =~= "<rect"@ + ax + ay + (overlay::cursor_box(key) + class));
        written::lemma_says("<rect"@, ax, ay + overlay::cursor_box(key) + class);
        written::lemma_says("<rect"@ + ax, ay, overlay::cursor_box(key) + class);
        written::lemma_says_around(none, front, end, ax);
        written::lemma_says_around(none, front, end, ay);
        if xs.len() != 1 {
            lemma_number_animation("  <animate attributeName=\"x\""@, xs, total_ms);
            assert(moves[0] == mx[0]);
            lemma_move_said(
                s,
                front,
                moves,
                0,
                animated(
                    "  <animate attributeName=\"x\""@,
                    xs,
                    |n: u32| number_word(n),
                    total_ms,
                ),
            );
        }
        if ys.len() != 1 {
            lemma_number_animation("  <animate attributeName=\"y\""@, ys, total_ms);
            assert(moves[mx.len() as int] == my[0]);
            lemma_move_said(
                s,
                front,
                moves,
                mx.len() as int,
                animated(
                    "  <animate attributeName=\"y\""@,
                    ys,
                    |n: u32| number_word(n),
                    total_ms,
                ),
            );
        }
        if shown.len() != 1 {
            lemma_shown_animation(shown, total_ms);
            assert(moves[(mx + my).len() as int] == ms[0]);
            lemma_move_said(
                s,
                front,
                moves,
                (mx + my).len() as int,
                animated(
                    "  <animate attributeName=\"visibility\""@,
                    shown,
                    |on: bool| shown_word(on),
                    total_ms,
                ),
            );
        }
    }
}

proof fn lemma_move_said(
    s: Seq<char>,
    front: Seq<char>,
    moves: Seq<Seq<char>>,
    i: int,
    t: Seq<char>,
)
    requires
        0 <= i < moves.len(),
        s == front + (">\n"@ + text::joined(moves, "\n"@) + "\n</rect>\n"@),
        written::says(moves[i], t),
    ensures
        written::says(s, t),
{
    let list = text::joined(moves, "\n"@);
    messages::lemma_joined_says(moves, "\n"@, i);
    written::lemma_says_through(list, moves[i], t);
    written::lemma_says_around(">\n"@, list, "\n</rect>\n"@, t);
    written::lemma_says_around(front, ">\n"@ + list + "\n</rect>\n"@, Seq::empty(), t);
}

/// A ring is drawn while the mouse is in its state: always, never, or from moment to moment.
pub open spec fn ring_said(head: Seq<char>, c: Seq<(u32, bool)>, total_ms: u32) -> Seq<char> {
    if c.len() != 1 {
        head + " "@ + "class=\"h\""@ + ">\n"@ + animated(
            "  <animate attributeName=\"visibility\""@,
            c,
            |on: bool| shown_word(on),
            total_ms,
        )
    } else if c[0].1 {
        head + "/>"@
    } else {
        head + " "@ + "class=\"h\""@ + "/>"@
    }
}

proof fn lemma_ring(head: Seq<char>, c: Seq<(u32, bool)>, total_ms: u32)
    ensures
        written::says(overlay::ring(head, c, total_ms), ring_said(head, c, total_ms)),
{
    let none = Seq::<char>::empty();
    let class = overlay::hidden_class(c);
    let anims = overlay::shown_animation(c, total_ms);
    let r = overlay::ring(head, c, total_ms);
    let t = ring_said(head, c, total_ms);
    reveal_strlit("");
    if c.len() != 1 {
        lemma_shown_animation(c, total_ms);
        assert(class == seq!["class=\"h\""@]);
        assert(text::joined(class, " "@) == "class=\"h\""@);
        assert(text::joined(anims, "\n"@) == anims[0]);
        let rest = " fill=\"freeze\"/>"@ + "\n</circle>"@;
        assert(r =~= t + rest);
        written::lemma_says(none, t, rest);
    } else {
        if !c[0].1 {
            assert(class == seq!["class=\"h\""@]);
            assert(text::joined(class, " "@) == "class=\"h\""@);
        }
        assert(r =~= t + none);
        written::lemma_says(none, t, none);
    }
}

/// The mouse goes the way that was recorded: it is moved to each of its places from moment
/// to moment, is visible while it is there, has one ring while a button is pressed and
/// another while something is dragged, and its arrow is smaller while a button is pressed.
pub proof fn lemma_mouse_course(v: Seq<MouseSpan>, total_ms: u32)
    requires
        v.len() > 0,
    ensures
        ({
            let b = sort::distinct_ascending(overlay::mouse_moments(v, total_ms));
            let at = |k: int| overlay::mouse_state(v, b, k);
            let points = course(
                b,
                |k: int|
                    single::shortest_text(at(k).0 as int) + ","@ + single::shortest_text(
                        at(k).1 as int,
                    ),
            );
            let shown = course(b, |k: int| at(k).2 is Some);
            let click = course(b, |k: int| at(k).2 == Some(MouseState::Clicking));
            let drag = course(b, |k: int| at(k).2 == Some(MouseState::Dragging));
            let s = overlay::mouse_svg(v, total_ms);
            let small = "<circle cx=\"0\" cy=\"0\" r=\"9\" fill=\"#dcdcdc\" fill-opacity=\"0.18\""@;
            let large = "<circle cx=\"0\" cy=\"0\" r=\"12\" fill=\"#dcdcdc\" fill-opacity=\"0.18\""@;
            &&& written::says(s, "<g "@ + ("transform=\"translate("@ + points[0].1 + ")\""@))
            &&& points.len() != 1 ==> written::says(
                s,
                animated(
                    "  <animateTransform attributeName=\"transform\" type=\"translate\""@,
                    points,
                    |p: Seq<char>| p,
                    total_ms,
                ),
            )
            &&& shown.len() != 1 ==> written::says(
                s,
                animated(
                    "  <animate attributeName=\"visibility\""@,
                    shown,
                    |on: bool| shown_word(on),
                    total_ms,
                ) + " fill=\"freeze\"/>"@ + "\n"@ + small,
            )
            &&& written::says(s, ring_said(small, click, total_ms))
            &&& written::says(s, ring_said(large, drag, total_ms))
            &&& click.len() != 1 ==> written::says(
                s,
                "<g transform=\"scale("@ + size_word(click[0].1) + ")\">"@ + "\n"@ + animated(
                    "  <animateTransform attributeName=\"transform\" type=\"scale\""@,
                    click,
                    |on: bool| size_word(on),
                    total_ms,
                ),
            )
        }),
{
    let b = sort::distinct_ascending(overlay::mouse_moments(v, total_ms));
    lemma_mouse_moments(v, total_ms);
    sort::lemma_distinct_ascending(overlay::mouse_moments(v, total_ms));
    let n = (b.len() - 1) as nat;
    let times = b.drop_last();
    let at = |k: int| overlay::mouse_state(v, b, k);
    let fp = |k: int|
        single::shortest_text(at(k).0 as int) + ","@ + single::shortest_text(at(k).1 as int);
    let fs = |k: int| at(k).2 is Some;
    let fc = |k: int| at(k).2 == Some(MouseState::Clicking);
    let fd = |k: int| at(k).2 == Some(MouseState::Dragging);
    assert(markup::paired(times, overlay::mouse_points(v, b, n)) =~= Seq::new(
        n,
        |k: int| (b[k], fp(k)),
    ));
    assert(markup::paired(times, overlay::mouse_shown(v, b, n)) =~= Seq::new(
        n,
        |k: int| (b[k], fs(k)),
    ));
    assert(markup::paired(times, overlay::mouse_in_state(v, b, n, MouseState::Clicking))
        =~= Seq::new(n, |k: int| (b[k], fc(k))));
    assert(markup::paired(times, overlay::mouse_in_state(v, b, n, MouseState::Dragging))
        =~= Seq::new(n, |k: int| (b[k], fd(k))));
    lemma_mouse_said(
        course(b, fp),
        course(b, fs),
        course(b, fc),
        course(b, fd),
        total_ms,
        overlay::mouse_svg(v, total_ms),
    );
}

proof fn lemma_mouse_said(
    points: Seq<(u32, Seq<char>)>,
    shown: Seq<(u32, bool)>,
    click: Seq<(u32, bool)>,
    drag: Seq<(u32, bool)>,
    total_ms: u32,
    s: Seq<char>,
)
    requires
        s == ({
            let anims = overlay::mouse_animations(points, shown, total_ms);
            "<g "@ + text::joined(overlay::mouse_attributes(points, shown), " "@) + ">\n"@ + (
            if anims.len() == 0 {
                ""@
            } else {
                text::joined(anims, "\n"@) + "\n"@
            }) + overlay::ring(
                "<circle cx=\"0\" cy=\"0\" r=\"9\" fill=\"#dcdcdc\" fill-opacity=\"0.18\""@,
                click,
                total_ms,
            ) + "\n  "@ + overlay::ring(
                "<circle cx=\"0\" cy=\"0\" r=\"12\" fill=\"#dcdcdc\" fill-opacity=\"0.18\""@,
                drag,
                total_ms,
            ) + "\n  "@ + overlay::arrow(click, total_ms) + "\n</g>\n"@
        }),
    ensures
        ({
            let small = "<circle cx=\"0\" cy=\"0\" r=\"9\" fill=\"#dcdcdc\" fill-opacity=\"0.18\""@;
            let large = "<circle cx=\"0\" cy=\"0\" r=\"12\" fill=\"#dcdcdc\" fill-opacity=\"0.18\""@;
            &&& written::says(s, "<g "@ + ("transform=\"translate("@ + points[0].1 + ")\""@))
            &&& points.len() != 1 ==> written::says(
                s,
                animated(
                    "  <animateTransform attributeName=\"transform\" type=\"translate\""@,
                    points,
                    |p: Seq<char>| p,
                    total_ms,
                ),
            )
            &&& shown.len() != 1 ==> written::says(
                s,
                animated(
                    "  <animate attributeName=\"visibility\""@,
                    shown,
                    |on: bool| shown_word(on),
                    total_ms,
                ) + " fill=\"freeze\"/>"@ + "\n"@ + small,
            )
            &&& written::says(s, ring_said(small, click, total_ms))
            &&& written::says(s, ring_said(large, drag, total_ms))
            &&& click.len() != 1 ==> written::says(
                s,
                "<g transform=\"scale("@ + size_word(click[0].1) + ")\">"@ + "\n"@ + animated(
                    "  <animateTransform attributeName=\"transform\" type=\"scale\""@,
                    click,
                    |on: bool| size_word(on),
                    total_ms,
                ),
            )
        }),
{
    let small = "<circle cx=\"0\" cy=\"0\" r=\"9\" fill=\"#dcdcdc\" fill-opacity=\"0.18\""@;
    let large = "<circle cx=\"0\" cy=\"0\" r=\"12\" fill=\"#dcdcdc\" fill-opacity=\"0.18\""@;
    let attrs = overlay::mouse_attributes(points, shown);
    let anims = overlay::mouse_animations(points, shown, total_ms);
    let moves = if anims.len() == 0 {
        ""@
    } else {
        text::joined(anims, "\n"@) + "\n"@
    };
    let r1 = overlay::ring(small, click, total_ms);
    let r2 = overlay::ring(large, drag, total_ms);
    let arrow = overlay::arrow(click, total_ms);
    let place = "transform=\"translate("@ + points[0].1 + ")\""@;
    assert(attrs[0] == place);
    let more = motions::lemma_list_begins(attrs, " "@);
    lemma_mouse_parts(
        ("<g "@, place, more, ">\n"@),
        moves,
        (r1, "\n  "@, r2),
        arrow,
        "\n</g>\n"@,
    );
    if points.len() != 1 {
        lemma_places_said(points, shown, total_ms);
        written::lemma_says_through(
            s,
            moves,
            animated(
                "  <animateTransform attributeName=\"transform\" type=\"translate\""@,
                points,
                |p: Seq<char>| p,
                total_ms,
            ),
        );
    }
    if shown.len() != 1 {
        lemma_shown_said(points, shown, click, total_ms);
        written::lemma_says_through(
            s,
            moves + r1,
            animated(
                "  <animate attributeName=\"visibility\""@,
                shown,
                |on: bool| shown_word(on),
                total_ms,
            ) + " fill=\"freeze\"/>"@ + "\n"@ + small,
        );
    }
    lemma_ring(small, click, total_ms);
    lemma_ring(large, drag, total_ms);
    written::lemma_says_through(s, r1, ring_said(small, click, total_ms));
    written::lemma_says_through(s, r2, ring_said(large, drag, total_ms));
    if click.len() != 1 {
        lemma_arrow_said(click, total_ms);
        written::lemma_says_through(
            s,
            arrow,
            "<g transform=\"scale("@ + size_word(click[0].1) + ")\">"@ + "\n"@ + animated(
                "  <animateTransform attributeName=\"transform\" type=\"scale\""@,
                click,
                |on: bool| size_word(on),
                total_ms,
            ),
        );
    }
}

/// A text says its parts.
proof fn lemma_mouse_parts(
    head: (Seq<char>, Seq<char>, Seq<char>, Seq<char>),
    moves: Seq<char>,
    rings: (Seq<char>, Seq<char>, Seq<char>),
    arrow: Seq<char>,
    end: Seq<char>,
)
    ensures
        ({
            let s = head.0 + (head.1 + head.2) + head.3 + moves + rings.0 + rings.1 + rings.2
                + rings.1 + arrow + end;
            &&& written::says(s, head.0 + head.1)
            &&& written::says(s, moves)
            &&& written::says(s, moves + rings.0)
            &&& written::says(s, rings.0)
            &&& written::says(s, rings.2)
            &&& written::says(s, arrow)
        }),
{
    let none = Seq::<char>::empty();
    let front = head.0 + (head.1 + head.2) + head.3;
    let after = rings.1 + rings.2 + rings.1 + arrow + end;
    let s = front + moves + rings.0 + rings.1 + rings.2 + rings.1 + arrow + end;
    let tail = head.2 + head.3 + moves + rings.0 + after;
    assert(s =~= none + (head.0 + head.1) + tail);
    written::lemma_says(none, head.0 + head.1, tail);
    assert(s =~= front + (moves + rings.0) + after);
    written::lemma_says(front, moves + rings.0, after);
    written::lemma_says(none, moves, rings.0);
    written::lemma_says(moves, rings.0, none);
    written::lemma_says_through(s, moves + rings.0, moves);
    written::lemma_says_through(s, moves + rings.0, rings.0);
    let a = front + moves + rings.0 + rings.1;
    let b = rings.1 + arrow + end;
    assert(s =~= a + rings.2 + b);
    written::lemma_says(a, rings.2, b);
    written::lemma_says(front + moves + rings.0 + rings.1 + rings.2 + rings.1, arrow, end);
}

proof fn lemma_places_said(
    points: Seq<(u32, Seq<char>)>,
    shown: Seq<(u32, bool)>,
    total_ms: u32,
)
    requires
        points.len() != 1,
    ensures
        ({
            let anims = overlay::mouse_animations(points, shown, total_ms);
            &&& anims.len() > 0
            &&& written::says(
                text::joined(anims, "\n"@) + "\n"@,
                animated(
                    "  <animateTransform attributeName=\"transform\" type=\"translate\""@,
                    points,
                    |p: Seq<char>| p,
                    total_ms,
                ),
            )
        }),
{
    let anims = overlay::mouse_animations(points, shown, total_ms);
    let head = "  <animateTransform attributeName=\"transform\" type=\"translate\""@;
    let word = |p: Seq<char>| p;
    lemma_timed(head, points, word, total_ms);
    assert(overlay::change_values(points) =~= Seq::new(
        points.len(),
        |i: int| word(points[i].1),
    ));
    let t = animated(head, points, word, total_ms);
    assert(written::says(anims[0], t));
    messages::lemma_joined_says(anims, "\n"@, 0);
    written::lemma_says_through(text::joined(anims, "\n"@), anims[0], t);
    written::lemma_says_around(Seq::empty(), text::joined(anims, "\n"@), "\n"@, t);
}

proof fn lemma_shown_said(
    points: Seq<(u32, Seq<char>)>,
    shown: Seq<(u32, bool)>,
    click: Seq<(u32, bool)>,
    total_ms: u32,
)
    requires
        shown.len() != 1,
    ensures
        ({
            let small = "<circle cx=\"0\" cy=\"0\" r=\"9\" fill=\"#dcdcdc\" fill-opacity=\"0.18\""@;
            let anims = overlay::mouse_animations(points, shown, total_ms);
            &&& anims.len() > 0
            &&& written::says(
                text::joined(anims, "\n"@) + "\n"@ + overlay::ring(small, click, total_ms),
                animated(
                    "  <animate attributeName=\"visibility\""@,
                    shown,
                    |on: bool| shown_word(on),
                    total_ms,
                ) + " fill=\"freeze\"/>"@ + "\n"@ + small,
            )
        }),
{
    let small = "<circle cx=\"0\" cy=\"0\" r=\"9\" fill=\"#dcdcdc\" fill-opacity=\"0.18\""@;
    let anims = overlay::mouse_animations(points, shown, total_ms);
    lemma_shown_animation(shown, total_ms);
    let last = overlay::shown_animation(shown, total_ms)[0];
    assert(anims.last() == last);
    let before = motions::lemma_list_ends(anims, "\n"@);
    let rest = lemma_ring_begins(small, click, total_ms);
    let t = last + "\n"@ + small;
    assert(text::joined(anims, "\n"@) + "\n"@ + overlay::ring(small, click, total_ms) =~= before
        + t + rest);
    written::lemma_says(before, t, rest);
}

proof fn lemma_arrow_said(click: Seq<(u32, bool)>, total_ms: u32)
    requires
        click.len() != 1,
    ensures
        written::says(
            overlay::arrow(click, total_ms),
            "<g transform=\"scale("@ + size_word(click[0].1) + ")\">"@ + "\n"@ + animated(
                "  <animateTransform attributeName=\"transform\" type=\"scale\""@,
                click,
                |on: bool| size_word(on),
                total_ms,
            ),
        ),
{
    let head = "  <animateTransform attributeName=\"transform\" type=\"scale\""@;
    let word = |on: bool| size_word(on);
    let values = overlay::change_values(click);
    assert(Seq::new(values.len(), |i: int| overlay::arrow_scale(values[i])) =~= Seq::new(
        click.len(),
        |i: int| word(click[i].1),
    ));
    lemma_timed(head, click, word, total_ms);
    let front = "<g transform=\"scale("@ + size_word(click[0].1) + ")\">"@;
    let t = front + "\n"@ + animated(head, click, word, total_ms);
    let rest = " fill=\"freeze\"/>"@ + "\n  "@ + pointer::polygon() + "</g>"@;
    assert(overlay::arrow(click, total_ms) =~= t + rest);
    written::lemma_says(Seq::empty(), t, rest);
}

proof fn lemma_ring_begins(head: Seq<char>, c: Seq<(u32, bool)>, total_ms: u32) -> (rest: Seq<
    char,
>)
    ensures
        overlay::ring(head, c, total_ms) == head + rest,
{
    let r = overlay::ring(head, c, total_ms);
    let rest = r.skip(head.len() as int);
    assert(r =~= head + rest);
    rest
}

proof fn lemma_groups_said(
    v: Seq<CursorRect>,
    keys: Seq<(u32, u32, Rgb)>,
    n: int,
    total_ms: u32,
    k: int,
)
    requires
        0 <= k < n <= keys.len(),
    ensures
        written::says(
            overlay::cursor_groups(v, keys, n, total_ms),
            overlay::cursor_group_svg(
                sort::sorted::<CursorRect, CursorByStart>(overlay::cursors_like(v, keys[k])),
                keys[k],
                total_ms,
            ),
        ),
    decreases n,
{
    let before = overlay::cursor_groups(v, keys, n - 1, total_ms);
    let list = sort::sorted::<CursorRect, CursorByStart>(overlay::cursors_like(v, keys[n - 1]));
    let last = overlay::cursor_group_svg(list, keys[n - 1], total_ms);
    if k < n - 1 {
        lemma_groups_said(v, keys, n - 1, total_ms, k);
        let one = overlay::cursor_group_svg(
            sort::sorted::<CursorRect, CursorByStart>(overlay::cursors_like(v, keys[k])),
            keys[k],
            total_ms,
        );
        written::lemma_says_around(Seq::empty(), before, last, one);
    } else {
        written::lemma_says(before, last, Seq::empty());
    }
}

/// A document that moves holds, for every cursor, the rectangle of those that are like it,
/// and the mouse.
pub proof fn lemma_document_courses(doc: SvgDoc, i: int)
    requires
        !doc.is_static,
        0 <= i < doc.cursor_rects@.len(),
    ensures
        ({
            let v = doc.cursor_rects@;
            let key = (v[i].w, v[i].h, v[i].fill);
            let total_ms = document::timer_ms(doc.master_timer_dur);
            &&& written::says(
                doc.svg(),
                overlay::cursor_group_svg(
                    sort::sorted::<CursorRect, CursorByStart>(overlay::cursors_like(v, key)),
                    key,
                    total_ms,
                ),
            )
            &&& written::says(doc.svg(), overlay::mouse_svg(doc.mouse_spans@, total_ms))
        }),
{
    let v = doc.cursor_rects@;
    let total_ms = document::timer_ms(doc.master_timer_dur);
    written::lemma_content_written(doc);
    overlay::lemma_every_cursor_has_group(v, i);
    let keys = overlay::cursor_keys(v);
    let key = overlay::cursor_key(v[i]);
    let k = choose|k: int| 0 <= k < keys.len() && keys[k] == key;
    lemma_groups_said(v, keys, keys.len() as int, total_ms, k);
    written::lemma_says_through(
        doc.svg(),
        overlay::cursors_svg(v, total_ms),
        overlay::cursor_group_svg(
            sort::sorted::<CursorRect, CursorByStart>(overlay::cursors_like(v, key)),
            key,
            total_ms,
        ),
    );
}

} // verus!
