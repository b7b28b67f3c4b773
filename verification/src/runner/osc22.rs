//! Finding the pointer shapes that a program asks for in its output: `OSC 22 ;
//! shape`, ended by BEL or ST.
use vstd::prelude::*;
use vstd::string::*;

verus! {

/// Where in a sequence the parser is.
#[derive(Debug, Clone, Copy, PartialEq, Eq, Structural)]
pub enum ParserState {
    Ground,
    Esc,
    Osc,
    Osc2,
    Osc22,
    Osc22Semi,
    CollectEsc,
}

/// Reads the output of a program byte by byte.
#[derive(Debug, Clone)]
pub struct Osc22Parser {
    state: ParserState,
    buffer: Vec<u8>,
}

pub struct OscView {
    pub state: ParserState,
    pub buffer: Seq<u8>,
}

impl View for Osc22Parser {
    type V = OscView;

    closed spec fn view(&self) -> OscView {
        OscView { state: self.state, buffer: self.buffer@ }
    }
}

/// What a byte makes of the parser, and the shape that it completes.
pub open spec fn step(s: OscView, byte: u8) -> (OscView, Option<Seq<u8>>) {
    let to = |state: ParserState| (OscView { state, ..s }, None);
    match s.state {
        ParserState::Ground => if byte == 0x1b {
            to(ParserState::Esc)
        } else if byte == 0x9d {
            to(ParserState::Osc)
        } else {
            to(ParserState::Ground)
        },
        ParserState::Esc => if byte == 0x5d {
            to(ParserState::Osc)
        } else {
            to(ParserState::Ground)
        },
        ParserState::Osc => if byte == 0x32 {
            to(ParserState::Osc2)
        } else {
            to(ParserState::Ground)
        },
        ParserState::Osc2 => if byte == 0x32 {
            to(ParserState::Osc22)
        } else {
            to(ParserState::Ground)
        },
        ParserState::Osc22 => if byte == 0x3b {
            (OscView { state: ParserState::Osc22Semi, buffer: Seq::empty() }, None)
        } else {
            to(ParserState::Ground)
        },
        ParserState::Osc22Semi => if byte == 0x07 {
            (OscView { state: ParserState::Ground, ..s }, Some(s.buffer))
        } else if byte == 0x1b {
            to(ParserState::CollectEsc)
        } else {
            (OscView { buffer: s.buffer.push(byte), ..s }, None)
        },
        ParserState::CollectEsc => if byte == 0x5c {
            (OscView { state: ParserState::Ground, ..s }, Some(s.buffer))
        } else if byte == 0x1b {
            (OscView { buffer: s.buffer.push(0x1b), ..s }, None)
        } else {
            (
                OscView {
                    state: ParserState::Osc22Semi,
                    buffer: s.buffer.push(0x1b).push(byte),
                },
                None,
            )
        },
    }
}

/// Bytes as text, if they are UTF-8.
pub open spec fn utf8(bytes: Seq<u8>) -> Option<Seq<char>> {
    if vstd::utf8::valid_utf8(bytes) {
        Some(vstd::utf8::decode_utf8(bytes))
    } else {
        None
    }
}

/// The text that bytes encode, by [`String::from_utf8`]: trusted to accept exactly
/// what is UTF-8, and to decode it.
#[verifier::external_body]
fn text_of(bytes: Vec<u8>) -> (r: Option<String>)
    ensures
        match r {
            Some(s) => utf8(bytes@) == Some(s@),
            None => utf8(bytes@) is None,
        },
{
    String::from_utf8(bytes).ok()
}

fn copy_of(v: &Vec<u8>) -> (out: Vec<u8>)
    ensures
        out@ == v@,
{
    let mut out: Vec<u8> = Vec::new();
    let mut i: usize = 0;
    while i < v.len()
        invariant
            i <= v@.len(),
            out@ == v@.take(i as int),
        decreases v@.len() - i,
    {
        out.push(v[i]);
        assert(out@ =~= v@.take(i + 1));
        i = i + 1;
    }
    assert(v@.take(v@.len() as int) =~= v@);
    out
}

impl Osc22Parser {
    /// A parser at the start of the output.
    pub fn new() -> (r: Osc22Parser)
        ensures
            r@ == (OscView { state: ParserState::Ground, buffer: Seq::empty() }),
    {
        Osc22Parser { state: ParserState::Ground, buffer: Vec::new() }
    }

    /// Take the next byte in, and hand out the shape that it completes, if that is
    /// text.
    pub fn feed(&mut self, byte: u8) -> (r: Option<String>)
        ensures
            final(self)@ == step(old(self)@, byte).0,
            match step(old(self)@, byte).1 {
                Some(shape) => match r {
                    Some(s) => utf8(shape) == Some(s@),
                    None => utf8(shape) is None,
                },
                None => r is None,
            },
    {
        match self.state {
            ParserState::Ground => {
                if byte == 0x1b {
                    self.state = ParserState::Esc;
                } else if byte == 0x9d {
                    self.state = ParserState::Osc;
                }
                None
            },
            ParserState::Esc => {
                self.state =
                if byte == 0x5d {
                    ParserState::Osc
                } else {
                    ParserState::Ground
                };
                None
            },
            ParserState::Osc => {
                self.state =
                if byte == 0x32 {
                    ParserState::Osc2
                } else {
                    ParserState::Ground
                };
                None
            },
            ParserState::Osc2 => {
                self.state =
                if byte == 0x32 {
                    ParserState::Osc22
                } else {
                    ParserState::Ground
                };
                None
            },
            ParserState::Osc22 => {
                if byte == 0x3b {
                    self.state = ParserState::Osc22Semi;
                    self.buffer.clear();
                } else {
                    self.state = ParserState::Ground;
                }
                None
            },
            ParserState::Osc22Semi => {
                if byte == 0x07 {
                    self.state = ParserState::Ground;
                    text_of(copy_of(&self.buffer))
                } else if byte == 0x1b {
                    self.state = ParserState::CollectEsc;
                    None
                } else {
                    self.buffer.push(byte);
                    None
                }
            },
            ParserState::CollectEsc => {
                if byte == 0x5c {
                    self.state = ParserState::Ground;
                    text_of(copy_of(&self.buffer))
                } else {
                    self.buffer.push(0x1b);
                    if byte != 0x1b {
                        self.buffer.push(byte);
                        self.state = ParserState::Osc22Semi;
                    }
                    None
                }
            },
        }
    }
}

impl Default for Osc22Parser {
    fn default() -> (r: Osc22Parser)
        ensures
            r@ == (OscView { state: ParserState::Ground, buffer: Seq::empty() }),
    {
        Osc22Parser::new()
    }
}

/// What output makes of the parser, and the shapes it completes.
pub open spec fn fed(s: OscView, bytes: Seq<u8>) -> (OscView, Seq<Seq<u8>>)
    decreases bytes.len(),
{
    if bytes.len() == 0 {
        (s, Seq::empty())
    } else {
        let (t, shapes) = fed(s, bytes.drop_last());
        let (u, shape) = step(t, bytes.last());
        (
            u,
            match shape {
                Some(b) => shapes.push(b),
                None => shapes,
            },
        )
    }
}

/// Output may come in pieces.
pub proof fn lemma_fed_in_pieces(s: OscView, a: Seq<u8>, b: Seq<u8>)
    ensures
        fed(s, a + b).0 == fed(fed(s, a).0, b).0,
        fed(s, a + b).1 == fed(s, a).1 + fed(fed(s, a).0, b).1,
    decreases b.len(),
{
    if b.len() == 0 {
        assert(a + b =~= a);
        assert(fed(s, a).1 + Seq::<Seq<u8>>::empty() =~= fed(s, a).1);
    } else {
        lemma_fed_in_pieces(s, a, b.drop_last());
        assert((a + b).drop_last() =~= a + b.drop_last());
        assert((a + b).last() == b.last());
        let t = fed(fed(s, a).0, b.drop_last());
        match step(t.0, b.last()).1 {
            Some(x) => {
                assert((fed(s, a).1 + t.1).push(x) =~= fed(s, a).1 + t.1.push(x));
            },
            None => {},
        }
    }
}

/// A shape is collected as it comes, as long as nothing ends it.
proof fn lemma_collected(s: OscView, shape: Seq<u8>)
    requires
        s.state == ParserState::Osc22Semi,
        forall|i: int| 0 <= i < shape.len() ==> shape[i] != 0x07 && shape[i] != 0x1b,
    ensures
        fed(s, shape) == (
            OscView { state: ParserState::Osc22Semi, buffer: s.buffer + shape },
            Seq::<Seq<u8>>::empty(),
        ),
    decreases shape.len(),
{
    if shape.len() == 0 {
        assert(s.buffer + shape =~= s.buffer);
    } else {
        lemma_collected(s, shape.drop_last());
        assert((s.buffer + shape.drop_last()).push(shape.last()) =~= s.buffer + shape);
        assert(shape.last() == shape[shape.len() - 1]);
    }
}

/// `ESC ] 2 2 ;`
pub open spec fn opening() -> Seq<u8> {
    seq![0x1bu8, 0x5du8, 0x32u8, 0x32u8, 0x3bu8]
}

/// The same with a single byte for `ESC ]`.
pub open spec fn short_opening() -> Seq<u8> {
    seq![0x9du8, 0x32u8, 0x32u8, 0x3bu8]
}

/// An announcement that was opened waits for its shape.
proof fn lemma_opened(s: OscView, o: Seq<u8>)
    requires
        s.state == ParserState::Ground,
        o == opening() || o == short_opening(),
    ensures
        fed(s, o).0 == (OscView { state: ParserState::Osc22Semi, buffer: Seq::empty() }),
        fed(s, o).1.len() == 0,
{
    let d = o.drop_last();
    let c = d.drop_last();
    let b = c.drop_last();
    assert(o.last() == 0x3b && d.last() == 0x32 && c.last() == 0x32);
    if o == opening() {
        let a = b.drop_last();
        assert(b.last() == 0x5d && a.last() == 0x1b);
        assert(a.drop_last() =~= Seq::<u8>::empty());
        assert(fed(s, a.drop_last()) == (s, Seq::<Seq<u8>>::empty()));
        assert(fed(s, a).0.state == ParserState::Esc);
    } else {
        assert(b.last() == 0x9d);
        assert(b.drop_last() =~= Seq::<u8>::empty());
        assert(fed(s, b.drop_last()) == (s, Seq::<Seq<u8>>::empty()));
    }
    assert(fed(s, b).0.state == ParserState::Osc);
    assert(fed(s, c).0.state == ParserState::Osc2);
    assert(fed(s, d).0.state == ParserState::Osc22);
}

/// A shape announced in either way, and ended with BEL or with ST, is found, exactly as
/// it was sent, and the parser is ready for the next one.
pub proof fn lemma_shape_found(s: OscView, o: Seq<u8>, shape: Seq<u8>)
    requires
        s.state == ParserState::Ground,
        o == opening() || o == short_opening(),
        forall|i: int| 0 <= i < shape.len() ==> shape[i] != 0x07 && shape[i] != 0x1b,
    ensures
        fed(s, o + shape + seq![0x07u8]).0.state == ParserState::Ground,
        fed(s, o + shape + seq![0x07u8]).1 == seq![shape],
        fed(s, o + shape + seq![0x1bu8, 0x5cu8]).0.state == ParserState::Ground,
        fed(s, o + shape + seq![0x1bu8, 0x5cu8]).1 == seq![shape],
{
    lemma_opened(s, o);
    let t = fed(s, o).0;
    assert(fed(s, o).1 =~= Seq::<Seq<u8>>::empty());
    lemma_collected(t, shape);
    assert(t.buffer + shape =~= shape);
    lemma_fed_in_pieces(s, o, shape);
    let u = fed(s, o + shape).0;
    assert(fed(s, o + shape).1 =~= Seq::<Seq<u8>>::empty());
    let bel = seq![0x07u8];
    lemma_fed_in_pieces(s, o + shape, bel);
    assert(bel.drop_last() =~= Seq::<u8>::empty());
    assert(fed(u, Seq::<u8>::empty()) == (u, Seq::<Seq<u8>>::empty()));
    assert(fed(u, bel).1 =~= seq![shape]);
    assert(fed(s, o + shape + bel).1 =~= seq![shape]);
    let esc = seq![0x1bu8];
    let st = seq![0x1bu8, 0x5cu8];
    lemma_fed_in_pieces(s, o + shape, st);
    assert(st.drop_last() =~= esc);
    assert(esc.drop_last() =~= Seq::<u8>::empty());
    assert(fed(u, esc).0.state == ParserState::CollectEsc);
    assert(fed(u, esc).0.buffer == shape);
    assert(fed(u, st).1 =~= seq![shape]);
    assert(fed(s, o + shape + st).1 =~= seq![shape]);
}

} // verus!
