//! The shapes of box-drawing characters are made of paths and rectangles.
use vstd::prelude::*;
use vstd::string::*;

use crate::render_svg::shapes;
use crate::render_svg::shapes::SHAPE_COUNT;

verus! {

/// Whether every tag of a drawing is a path or a rectangle.
pub open spec fn drawing(t: Seq<char>) -> bool {
    forall|i: int|
        0 <= i < t.len() && #[trigger] t[i] == '<' ==> i + 1 < t.len() && (t[i + 1] == 'p' || t[i
            + 1] == 'r')
}

proof fn lemma_drawings_0()
    ensures
        forall|i: int| 0 <= i < 12 ==> drawing((#[trigger] shapes::SHAPES[i]).1@),
{
    assert(drawing(shapes::SHAPES[0].1@)) by {
        reveal_strlit("<path d=\"M 0 {v} H {w}\" fill=\"none\" stroke-width=\"{l}\" stroke-linecap=\"butt\"/>");
    }
    assert(drawing(shapes::SHAPES[1].1@)) by {
        reveal_strlit("<path d=\"M 0 {v} H {w}\" fill=\"none\" stroke-width=\"{b}\" stroke-linecap=\"butt\"/>");
    }
    assert(drawing(shapes::SHAPES[2].1@)) by {
        reveal_strlit("<path d=\"M {u} 0 V {h}\" fill=\"none\" stroke-width=\"{l}\" stroke-linecap=\"butt\"/>");
    }
    assert(drawing(shapes::SHAPES[3].1@)) by {
        reveal_strlit("<path d=\"M {u} 0 V {h}\" fill=\"none\" stroke-width=\"{b}\" stroke-linecap=\"butt\"/>");
    }
    assert(drawing(shapes::SHAPES[4].1@)) by {
        reveal_strlit("<path d=\"M 0 {v} H {w}\" fill=\"none\" stroke-width=\"{l}\" stroke-dasharray=\"3,3\" stroke-linecap=\"butt\"/>");
    }
    assert(drawing(shapes::SHAPES[5].1@)) by {
        reveal_strlit("<path d=\"M 0 {v} H {w}\" fill=\"none\" stroke-width=\"{b}\" stroke-dasharray=\"3,3\" stroke-linecap=\"butt\"/>");
    }
    assert(drawing(shapes::SHAPES[6].1@)) by {
        reveal_strlit("<path d=\"M {u} 0 V {h}\" fill=\"none\" stroke-width=\"{l}\" stroke-dasharray=\"3,3\" stroke-linecap=\"butt\"/>");
    }
    assert(drawing(shapes::SHAPES[7].1@)) by {
        reveal_strlit("<path d=\"M {u} 0 V {h}\" fill=\"none\" stroke-width=\"{b}\" stroke-dasharray=\"3,3\" stroke-linecap=\"butt\"/>");
    }
    assert(drawing(shapes::SHAPES[8].1@)) by {
        reveal_strlit("<path d=\"M 0 {v} H {w}\" fill=\"none\" stroke-width=\"{l}\" stroke-dasharray=\"2,2\" stroke-linecap=\"butt\"/>");
    }
    assert(drawing(shapes::SHAPES[9].1@)) by {
        reveal_strlit("<path d=\"M 0 {v} H {w}\" fill=\"none\" stroke-width=\"{b}\" stroke-dasharray=\"2,2\" stroke-linecap=\"butt\"/>");
    }
    assert(drawing(shapes::SHAPES[10].1@)) by {
        reveal_strlit("<path d=\"M {u} 0 V {h}\" fill=\"none\" stroke-width=\"{l}\" stroke-dasharray=\"2,2\" stroke-linecap=\"butt\"/>");
    }
    assert(drawing(shapes::SHAPES[11].1@)) by {
        reveal_strlit("<path d=\"M {u} 0 V {h}\" fill=\"none\" stroke-width=\"{b}\" stroke-dasharray=\"2,2\" stroke-linecap=\"butt\"/>");
    }
}

proof fn lemma_drawings_12()
    ensures
        forall|i: int| 12 <= i < 24 ==> drawing((#[trigger] shapes::SHAPES[i]).1@),
{
    assert(drawing(shapes::SHAPES[12].1@)) by {
        reveal_strlit("<path d=\"M {w} {v} H {u} V {h}\" fill=\"none\" stroke-width=\"{l}\" stroke-linejoin=\"miter\"/>");
    }
    assert(drawing(shapes::SHAPES[13].1@)) by {
        reveal_strlit("<path d=\"M 0 {v} H {u} V {h}\" fill=\"none\" stroke-width=\"{l}\" stroke-linejoin=\"miter\"/>");
    }
    assert(drawing(shapes::SHAPES[14].1@)) by {
        reveal_strlit("<path d=\"M {w} {v} H {u} V 0\" fill=\"none\" stroke-width=\"{l}\" stroke-linejoin=\"miter\"/>");
    }
    assert(drawing(shapes::SHAPES[15].1@)) by {
        reveal_strlit("<path d=\"M 0 {v} H {u} V 0\" fill=\"none\" stroke-width=\"{l}\" stroke-linejoin=\"miter\"/>");
    }
    assert(drawing(shapes::SHAPES[16].1@)) by {
        reveal_strlit("<path d=\"M {w} {v} H {u} V {h}\" fill=\"none\" stroke-width=\"{b}\" stroke-linejoin=\"miter\"/>");
    }
    assert(drawing(shapes::SHAPES[17].1@)) by {
        reveal_strlit("<path d=\"M 0 {v} H {u} V {h}\" fill=\"none\" stroke-width=\"{b}\" stroke-linejoin=\"miter\"/>");
    }
    assert(drawing(shapes::SHAPES[18].1@)) by {
        reveal_strlit("<path d=\"M {w} {v} H {u} V 0\" fill=\"none\" stroke-width=\"{b}\" stroke-linejoin=\"miter\"/>");
    }
    assert(drawing(shapes::SHAPES[19].1@)) by {
        reveal_strlit("<path d=\"M 0 {v} H {u} V 0\" fill=\"none\" stroke-width=\"{b}\" stroke-linejoin=\"miter\"/>");
    }
    assert(drawing(shapes::SHAPES[20].1@)) by {
        reveal_strlit("<path d=\"M {w} {v} H {u}\" fill=\"none\" stroke-width=\"{b}\"/>\n               <path d=\"M {u} {v} V {h}\" fill=\"none\" stroke-width=\"{l}\"/>");
    }
    assert(drawing(shapes::SHAPES[21].1@)) by {
        reveal_strlit("<path d=\"M {w} {v} H {u}\" fill=\"none\" stroke-width=\"{l}\"/>\n               <path d=\"M {u} {v} V {h}\" fill=\"none\" stroke-width=\"{b}\"/>");
    }
    assert(drawing(shapes::SHAPES[22].1@)) by {
        reveal_strlit("<path d=\"M 0 {v} H {u}\" fill=\"none\" stroke-width=\"{b}\"/>\n               <path d=\"M {u} {v} V {h}\" fill=\"none\" stroke-width=\"{l}\"/>");
    }
    assert(drawing(shapes::SHAPES[23].1@)) by {
        reveal_strlit("<path d=\"M 0 {v} H {u}\" fill=\"none\" stroke-width=\"{l}\"/>\n               <path d=\"M {u} {v} V {h}\" fill=\"none\" stroke-width=\"{b}\"/>");
    }
}

proof fn lemma_drawings_24()
    ensures
        forall|i: int| 24 <= i < 36 ==> drawing((#[trigger] shapes::SHAPES[i]).1@),
{
    assert(drawing(shapes::SHAPES[24].1@)) by {
        reveal_strlit("<path d=\"M {w} {v} H {u}\" fill=\"none\" stroke-width=\"{b}\"/>\n               <path d=\"M {u} {v} V 0\" fill=\"none\" stroke-width=\"{l}\"/>");
    }
    assert(drawing(shapes::SHAPES[25].1@)) by {
        reveal_strlit("<path d=\"M {w} {v} H {u}\" fill=\"none\" stroke-width=\"{l}\"/>\n               <path d=\"M {u} {v} V 0\" fill=\"none\" stroke-width=\"{b}\"/>");
    }
    assert(drawing(shapes::SHAPES[26].1@)) by {
        reveal_strlit("<path d=\"M 0 {v} H {u}\" fill=\"none\" stroke-width=\"{b}\"/>\n               <path d=\"M {u} {v} V 0\" fill=\"none\" stroke-width=\"{l}\"/>");
    }
    assert(drawing(shapes::SHAPES[27].1@)) by {
        reveal_strlit("<path d=\"M 0 {v} H {u}\" fill=\"none\" stroke-width=\"{l}\"/>\n               <path d=\"M {u} {v} V 0\" fill=\"none\" stroke-width=\"{b}\"/>");
    }
    assert(drawing(shapes::SHAPES[28].1@)) by {
        reveal_strlit("<path d=\"M {w} {v} H {r} Q {u} {v} {u} {t} V {h}\" fill=\"none\" stroke-width=\"{l}\" stroke-linejoin=\"round\"/>");
    }
    assert(drawing(shapes::SHAPES[29].1@)) by {
        reveal_strlit("<path d=\"M 0 {v} H {q} Q {u} {v} {u} {t} V {h}\" fill=\"none\" stroke-width=\"{l}\" stroke-linejoin=\"round\"/>");
    }
    assert(drawing(shapes::SHAPES[30].1@)) by {
        reveal_strlit("<path d=\"M 0 {v} H {q} Q {u} {v} {u} {s} V 0\" fill=\"none\" stroke-width=\"{l}\" stroke-linejoin=\"round\"/>");
    }
    assert(drawing(shapes::SHAPES[31].1@)) by {
        reveal_strlit("<path d=\"M {w} {v} H {r} Q {u} {v} {u} {s} V 0\" fill=\"none\" stroke-width=\"{l}\" stroke-linejoin=\"round\"/>");
    }
    assert(drawing(shapes::SHAPES[32].1@)) by {
        reveal_strlit("<path d=\"M {u} 0 V {h} M {u} {v} H {w}\" fill=\"none\" stroke-width=\"{l}\"/>");
    }
    assert(drawing(shapes::SHAPES[33].1@)) by {
        reveal_strlit("<path d=\"M {u} 0 V {h} M {u} {v} H 0\" fill=\"none\" stroke-width=\"{l}\"/>");
    }
    assert(drawing(shapes::SHAPES[34].1@)) by {
        reveal_strlit("<path d=\"M 0 {v} H {w} M {u} {v} V {h}\" fill=\"none\" stroke-width=\"{l}\"/>");
    }
    assert(drawing(shapes::SHAPES[35].1@)) by {
        reveal_strlit("<path d=\"M 0 {v} H {w} M {u} {v} V 0\" fill=\"none\" stroke-width=\"{l}\"/>");
    }
}

proof fn lemma_drawings_36()
    ensures
        forall|i: int| 36 <= i < 48 ==> drawing((#[trigger] shapes::SHAPES[i]).1@),
{
    assert(drawing(shapes::SHAPES[36].1@)) by {
        reveal_strlit("<path d=\"M 0 {v} H {w} M {u} 0 V {h}\" fill=\"none\" stroke-width=\"{l}\"/>");
    }
    assert(drawing(shapes::SHAPES[37].1@)) by {
        reveal_strlit("<path d=\"M {u} 0 V {h} M {u} {v} H {w}\" fill=\"none\" stroke-width=\"{b}\"/>");
    }
    assert(drawing(shapes::SHAPES[38].1@)) by {
        reveal_strlit("<path d=\"M {u} 0 V {h} M {u} {v} H 0\" fill=\"none\" stroke-width=\"{b}\"/>");
    }
    assert(drawing(shapes::SHAPES[39].1@)) by {
        reveal_strlit("<path d=\"M 0 {v} H {w} M {u} {v} V {h}\" fill=\"none\" stroke-width=\"{b}\"/>");
    }
    assert(drawing(shapes::SHAPES[40].1@)) by {
        reveal_strlit("<path d=\"M 0 {v} H {w} M {u} {v} V 0\" fill=\"none\" stroke-width=\"{b}\"/>");
    }
    assert(drawing(shapes::SHAPES[41].1@)) by {
        reveal_strlit("<path d=\"M 0 {v} H {w} M {u} 0 V {h}\" fill=\"none\" stroke-width=\"{b}\"/>");
    }
    assert(drawing(shapes::SHAPES[42].1@)) by {
        reveal_strlit("<path d=\"M {u} 0 V {h}\" fill=\"none\" stroke-width=\"{b}\"/>\n               <path d=\"M {u} {v} H {w}\" fill=\"none\" stroke-width=\"{l}\"/>");
    }
    assert(drawing(shapes::SHAPES[43].1@)) by {
        reveal_strlit("<path d=\"M {u} 0 V {h}\" fill=\"none\" stroke-width=\"{b}\"/>\n               <path d=\"M {u} {v} H 0\" fill=\"none\" stroke-width=\"{l}\"/>");
    }
    assert(drawing(shapes::SHAPES[44].1@)) by {
        reveal_strlit("<path d=\"M 0 {v} H {w}\" fill=\"none\" stroke-width=\"{b}\"/>\n               <path d=\"M {u} {v} V {h}\" fill=\"none\" stroke-width=\"{l}\"/>");
    }
    assert(drawing(shapes::SHAPES[45].1@)) by {
        reveal_strlit("<path d=\"M 0 {v} H {w}\" fill=\"none\" stroke-width=\"{b}\"/>\n               <path d=\"M {u} {v} V 0\" fill=\"none\" stroke-width=\"{l}\"/>");
    }
    assert(drawing(shapes::SHAPES[46].1@)) by {
        reveal_strlit("<path d=\"M {u} 0 V {h}\" fill=\"none\" stroke-width=\"{l}\"/>\n               <path d=\"M {u} {v} H {w}\" fill=\"none\" stroke-width=\"{b}\"/>");
    }
    assert(drawing(shapes::SHAPES[47].1@)) by {
        reveal_strlit("<path d=\"M {u} 0 V {h}\" fill=\"none\" stroke-width=\"{l}\"/>\n               <path d=\"M {u} {v} H 0\" fill=\"none\" stroke-width=\"{b}\"/>");
    }
}

proof fn lemma_drawings_48()
    ensures
        forall|i: int| 48 <= i < 60 ==> drawing((#[trigger] shapes::SHAPES[i]).1@),
{
    assert(drawing(shapes::SHAPES[48].1@)) by {
        reveal_strlit("<path d=\"M 0 {v} H {w}\" fill=\"none\" stroke-width=\"{l}\"/>\n               <path d=\"M {u} {v} V {h}\" fill=\"none\" stroke-width=\"{b}\"/>");
    }
    assert(drawing(shapes::SHAPES[49].1@)) by {
        reveal_strlit("<path d=\"M 0 {v} H {w}\" fill=\"none\" stroke-width=\"{l}\"/>\n               <path d=\"M {u} {v} V 0\" fill=\"none\" stroke-width=\"{b}\"/>");
    }
    assert(drawing(shapes::SHAPES[50].1@)) by {
        reveal_strlit("<path d=\"M 0 {o} H {w} M 0 {p} H {w}\" fill=\"none\" stroke-width=\"{l}\"/>");
    }
    assert(drawing(shapes::SHAPES[51].1@)) by {
        reveal_strlit("<path d=\"M {m} 0 V {h} M {n} 0 V {h}\" fill=\"none\" stroke-width=\"{l}\"/>");
    }
    assert(drawing(shapes::SHAPES[52].1@)) by {
        reveal_strlit("<path d=\"M {w} {o} H {m} V {h}\" fill=\"none\" stroke-width=\"{l}\"/>\n               <path d=\"M {w} {p} H {n} V {h}\" fill=\"none\" stroke-width=\"{l}\"/>");
    }
    assert(drawing(shapes::SHAPES[53].1@)) by {
        reveal_strlit("<path d=\"M 0 {o} H {n} V {h}\" fill=\"none\" stroke-width=\"{l}\"/>\n               <path d=\"M 0 {p} H {m} V {h}\" fill=\"none\" stroke-width=\"{l}\"/>");
    }
    assert(drawing(shapes::SHAPES[54].1@)) by {
        reveal_strlit("<path d=\"M {w} {p} H {m} V 0\" fill=\"none\" stroke-width=\"{l}\"/>\n               <path d=\"M {w} {o} H {n} V 0\" fill=\"none\" stroke-width=\"{l}\"/>");
    }
    assert(drawing(shapes::SHAPES[55].1@)) by {
        reveal_strlit("<path d=\"M 0 {p} H {n} V 0\" fill=\"none\" stroke-width=\"{l}\"/>\n               <path d=\"M 0 {o} H {m} V 0\" fill=\"none\" stroke-width=\"{l}\"/>");
    }
    assert(drawing(shapes::SHAPES[56].1@)) by {
        reveal_strlit("<path d=\"M {m} 0 V {h}\" fill=\"none\" stroke-width=\"{l}\"/>\n               <path d=\"M {n} 0 V {o} H {w}\" fill=\"none\" stroke-width=\"{l}\"/>\n               <path d=\"M {n} {h} V {p} H {w}\" fill=\"none\" stroke-width=\"{l}\"/>");
    }
    assert(drawing(shapes::SHAPES[57].1@)) by {
        reveal_strlit("<path d=\"M {n} 0 V {h}\" fill=\"none\" stroke-width=\"{l}\"/>\n               <path d=\"M {m} 0 V {o} H 0\" fill=\"none\" stroke-width=\"{l}\"/>\n               <path d=\"M {m} {h} V {p} H 0\" fill=\"none\" stroke-width=\"{l}\"/>");
    }
    assert(drawing(shapes::SHAPES[58].1@)) by {
        reveal_strlit("<path d=\"M 0 {o} H {w}\" fill=\"none\" stroke-width=\"{l}\"/>\n               <path d=\"M 0 {p} H {m} V {h}\" fill=\"none\" stroke-width=\"{l}\"/>\n               <path d=\"M {w} {p} H {n} V {h}\" fill=\"none\" stroke-width=\"{l}\"/>");
    }
    assert(drawing(shapes::SHAPES[59].1@)) by {
        reveal_strlit("<path d=\"M 0 {p} H {w}\" fill=\"none\" stroke-width=\"{l}\"/>\n               <path d=\"M 0 {o} H {m} V 0\" fill=\"none\" stroke-width=\"{l}\"/>\n               <path d=\"M {w} {o} H {n} V 0\" fill=\"none\" stroke-width=\"{l}\"/>");
    }
}

proof fn lemma_drawings_60()
    ensures
        forall|i: int| 60 <= i < 72 ==> drawing((#[trigger] shapes::SHAPES[i]).1@),
{
    assert(drawing(shapes::SHAPES[60].1@)) by {
        reveal_strlit("<path d=\"M 0 {o} H {m} V 0\" fill=\"none\" stroke-width=\"{l}\"/>\n               <path d=\"M {w} {o} H {n} V 0\" fill=\"none\" stroke-width=\"{l}\"/>\n               <path d=\"M 0 {p} H {m} V {h}\" fill=\"none\" stroke-width=\"{l}\"/>\n               <path d=\"M {w} {p} H {n} V {h}\" fill=\"none\" stroke-width=\"{l}\"/>");
    }
    assert(drawing(shapes::SHAPES[61].1@)) by {
        reveal_strlit("<rect x=\"0\" y=\"0\" width=\"{w}\" height=\"{h}\" stroke=\"none\"/>");
    }
    assert(drawing(shapes::SHAPES[62].1@)) by {
        reveal_strlit("<rect x=\"0\" y=\"0\" width=\"{w}\" height=\"{v}\" stroke=\"none\"/>");
    }
    assert(drawing(shapes::SHAPES[63].1@)) by {
        reveal_strlit("<rect x=\"0\" y=\"{v}\" width=\"{w}\" height=\"{v}\" stroke=\"none\"/>");
    }
    assert(drawing(shapes::SHAPES[64].1@)) by {
        reveal_strlit("<rect x=\"0\" y=\"0\" width=\"{u}\" height=\"{h}\" stroke=\"none\"/>");
    }
    assert(drawing(shapes::SHAPES[65].1@)) by {
        reveal_strlit("<rect x=\"{u}\" y=\"0\" width=\"{u}\" height=\"{h}\" stroke=\"none\"/>");
    }
    assert(drawing(shapes::SHAPES[66].1@)) by {
        reveal_strlit("<rect x=\"0\" y=\"{H}\" width=\"{w}\" height=\"{A}\" stroke=\"none\"/>");
    }
    assert(drawing(shapes::SHAPES[67].1@)) by {
        reveal_strlit("<rect x=\"0\" y=\"{I}\" width=\"{w}\" height=\"{B}\" stroke=\"none\"/>");
    }
    assert(drawing(shapes::SHAPES[68].1@)) by {
        reveal_strlit("<rect x=\"0\" y=\"{J}\" width=\"{w}\" height=\"{C}\" stroke=\"none\"/>");
    }
    assert(drawing(shapes::SHAPES[69].1@)) by {
        reveal_strlit("<rect x=\"0\" y=\"{L}\" width=\"{w}\" height=\"{E}\" stroke=\"none\"/>");
    }
    assert(drawing(shapes::SHAPES[70].1@)) by {
        reveal_strlit("<rect x=\"0\" y=\"{M}\" width=\"{w}\" height=\"{F}\" stroke=\"none\"/>");
    }
    assert(drawing(shapes::SHAPES[71].1@)) by {
        reveal_strlit("<rect x=\"0\" y=\"{N}\" width=\"{w}\" height=\"{G}\" stroke=\"none\"/>");
    }
}

proof fn lemma_drawings_72()
    ensures
        forall|i: int| 72 <= i < 84 ==> drawing((#[trigger] shapes::SHAPES[i]).1@),
{
    assert(drawing(shapes::SHAPES[72].1@)) by {
        reveal_strlit("<rect x=\"0\" y=\"0\" width=\"{1}\" height=\"{h}\" stroke=\"none\"/>");
    }
    assert(drawing(shapes::SHAPES[73].1@)) by {
        reveal_strlit("<rect x=\"0\" y=\"0\" width=\"{2}\" height=\"{h}\" stroke=\"none\"/>");
    }
    assert(drawing(shapes::SHAPES[74].1@)) by {
        reveal_strlit("<rect x=\"0\" y=\"0\" width=\"{3}\" height=\"{h}\" stroke=\"none\"/>");
    }
    assert(drawing(shapes::SHAPES[75].1@)) by {
        reveal_strlit("<rect x=\"0\" y=\"0\" width=\"{5}\" height=\"{h}\" stroke=\"none\"/>");
    }
    assert(drawing(shapes::SHAPES[76].1@)) by {
        reveal_strlit("<rect x=\"0\" y=\"0\" width=\"{6}\" height=\"{h}\" stroke=\"none\"/>");
    }
    assert(drawing(shapes::SHAPES[77].1@)) by {
        reveal_strlit("<rect x=\"0\" y=\"0\" width=\"{7}\" height=\"{h}\" stroke=\"none\"/>");
    }
    assert(drawing(shapes::SHAPES[78].1@)) by {
        reveal_strlit("<rect x=\"0\" y=\"0\" width=\"{w}\" height=\"{A}\" stroke=\"none\"/>");
    }
    assert(drawing(shapes::SHAPES[79].1@)) by {
        reveal_strlit("<rect x=\"{z}\" y=\"0\" width=\"{1}\" height=\"{h}\" stroke=\"none\"/>");
    }
    assert(drawing(shapes::SHAPES[80].1@)) by {
        reveal_strlit("<rect x=\"0\" y=\"{v}\" width=\"{u}\" height=\"{v}\" stroke=\"none\"/>");
    }
    assert(drawing(shapes::SHAPES[81].1@)) by {
        reveal_strlit("<rect x=\"{u}\" y=\"{v}\" width=\"{u}\" height=\"{v}\" stroke=\"none\"/>");
    }
    assert(drawing(shapes::SHAPES[82].1@)) by {
        reveal_strlit("<rect x=\"0\" y=\"0\" width=\"{u}\" height=\"{v}\" stroke=\"none\"/>");
    }
    assert(drawing(shapes::SHAPES[83].1@)) by {
        reveal_strlit("<rect x=\"{u}\" y=\"0\" width=\"{u}\" height=\"{v}\" stroke=\"none\"/>");
    }
}

proof fn lemma_drawings_84()
    ensures
        forall|i: int| 84 <= i < 93 ==> drawing((#[trigger] shapes::SHAPES[i]).1@),
{
    assert(drawing(shapes::SHAPES[84].1@)) by {
        reveal_strlit("<rect x=\"0\" y=\"0\" width=\"{u}\" height=\"{v}\" stroke=\"none\"/>\n               <rect x=\"0\" y=\"{v}\" width=\"{w}\" height=\"{v}\" stroke=\"none\"/>");
    }
    assert(drawing(shapes::SHAPES[85].1@)) by {
        reveal_strlit("<rect x=\"0\" y=\"0\" width=\"{u}\" height=\"{v}\" stroke=\"none\"/>\n               <rect x=\"{u}\" y=\"{v}\" width=\"{u}\" height=\"{v}\" stroke=\"none\"/>");
    }
    assert(drawing(shapes::SHAPES[86].1@)) by {
        reveal_strlit("<rect x=\"0\" y=\"0\" width=\"{w}\" height=\"{v}\" stroke=\"none\"/>\n               <rect x=\"0\" y=\"{v}\" width=\"{u}\" height=\"{v}\" stroke=\"none\"/>");
    }
    assert(drawing(shapes::SHAPES[87].1@)) by {
        reveal_strlit("<rect x=\"0\" y=\"0\" width=\"{w}\" height=\"{v}\" stroke=\"none\"/>\n               <rect x=\"{u}\" y=\"{v}\" width=\"{u}\" height=\"{v}\" stroke=\"none\"/>");
    }
    assert(drawing(shapes::SHAPES[88].1@)) by {
        reveal_strlit("<rect x=\"{u}\" y=\"0\" width=\"{u}\" height=\"{v}\" stroke=\"none\"/>\n               <rect x=\"0\" y=\"{v}\" width=\"{u}\" height=\"{v}\" stroke=\"none\"/>");
    }
    assert(drawing(shapes::SHAPES[89].1@)) by {
        reveal_strlit("<rect x=\"{u}\" y=\"0\" width=\"{u}\" height=\"{v}\" stroke=\"none\"/>\n               <rect x=\"0\" y=\"{v}\" width=\"{w}\" height=\"{v}\" stroke=\"none\"/>");
    }
    assert(drawing(shapes::SHAPES[90].1@)) by {
        reveal_strlit("<rect x=\"0\" y=\"0\" width=\"{w}\" height=\"{h}\" fill-opacity=\"0.25\" stroke=\"none\"/>");
    }
    assert(drawing(shapes::SHAPES[91].1@)) by {
        reveal_strlit("<rect x=\"0\" y=\"0\" width=\"{w}\" height=\"{h}\" fill-opacity=\"0.5\" stroke=\"none\"/>");
    }
    assert(drawing(shapes::SHAPES[92].1@)) by {
        reveal_strlit("<rect x=\"0\" y=\"0\" width=\"{w}\" height=\"{h}\" fill-opacity=\"0.75\" stroke=\"none\"/>");
    }
}

/// Every shape of the table is a drawing.
pub proof fn lemma_shape_drawing(ch: char, i: int)
    requires
        0 <= i <= SHAPE_COUNT,
    ensures
        shapes::shape_from(ch, i) matches Some(t) ==> drawing(t),
    decreases SHAPE_COUNT - i,
{
    if i < SHAPE_COUNT {
        lemma_drawings_0();
        lemma_drawings_12();
        lemma_drawings_24();
        lemma_drawings_36();
        lemma_drawings_48();
        lemma_drawings_60();
        lemma_drawings_72();
        lemma_drawings_84();
        lemma_shape_drawing(ch, i + 1);
    }
}

} // verus!
