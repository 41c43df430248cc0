use vstd::prelude::*;
use vstd::string::*;

use crate::text::{lines_of, split_lines};

verus! {

/// One instruction or data line of the listing.
#[derive(Debug)]
pub struct InstructionLine {
    /// Mnemonic text; an `@` in it stands for the operand.
    pub mnemonic: String,
    /// The operand as a number.
    pub operand: String,
    /// The operand as a symbol, where one names it.
    pub symbol: Option<String>,
    pub addr: u16,
    /// The line's bytes, as hexadecimal or as text.
    pub hex: String,
    /// Trailing comment.
    pub comment: String,
}

/// A semantic token of the listing; a renderer turns each into text.
#[derive(Debug)]
pub enum Line {
    Label(String),
    Instruction(InstructionLine),
    Comment(String),
    Directive(String),
    /// A symbol outside any bank and its address.
    Equate(u16, String),
}

/// Mathematical model of a token.
pub enum LineView {
    Label(Seq<char>),
    Instruction {
        mnemonic: Seq<char>,
        operand: Seq<char>,
        symbol: Option<Seq<char>>,
        addr: u16,
        hex: Seq<char>,
        comment: Seq<char>,
    },
    Comment(Seq<char>),
    Directive(Seq<char>),
    Equate(u16, Seq<char>),
}

impl View for Line {
    type V = LineView;

    open spec fn view(&self) -> LineView {
        match self {
            Line::Label(s) => LineView::Label(s@),
            Line::Instruction(i) => LineView::Instruction {
                mnemonic: i.mnemonic@,
                operand: i.operand@,
                symbol: match i.symbol {
                    Some(s) => Some(s@),
                    None => None,
                },
                addr: i.addr,
                hex: i.hex@,
                comment: i.comment@,
            },
            Line::Comment(s) => LineView::Comment(s@),
            Line::Directive(s) => LineView::Directive(s@),
            Line::Equate(a, s) => LineView::Equate(*a, s@),
        }
    }
}

/// Views of a list of tokens.
pub open spec fn lines_view(v: Seq<Line>) -> Seq<LineView> {
    v.map_values(|l: Line| l@)
}

/// The comment lines of a block of text: none for an empty block, else one
/// per line of the block.
pub open spec fn comment_lines(block: Seq<char>) -> Seq<LineView> {
    if block.len() == 0 {
        Seq::empty()
    } else {
        split_lines(block).map_values(|l: Seq<char>| LineView::Comment(l))
    }
}

/// Comment tokens for a block of text, one per line.
pub fn commentblock(block: &str) -> (r: Vec<Line>)
    ensures
        lines_view(r@) == comment_lines(block@),
{
    let mut r: Vec<Line> = Vec::new();
    if block.unicode_len() == 0 {
        assert(lines_view(r@) =~= comment_lines(block@));
        return r;
    }
    let pieces = lines_of(block);
    let mut i: usize = 0;
    while i < pieces.len()
        invariant
            block@.len() > 0,
            pieces@.len() == split_lines(block@).len(),
            forall|j: int| 0 <= j < pieces@.len() ==> #[trigger] pieces@[j]@ == split_lines(block@)[j],
            i <= pieces@.len(),
            r@.len() == i,
            lines_view(r@) =~= comment_lines(block@).take(i as int),
        decreases pieces@.len() - i,
    {
        let ghost r0 = r@;
        r.push(Line::Comment(pieces[i].clone()));
        assert(r@[i as int]@ == LineView::Comment(split_lines(block@)[i as int]));
        assert(r@ == r0.push(r@[i as int]));
        assert(lines_view(r@) =~= comment_lines(block@).take(i as int + 1));
        i += 1;
    }
    assert(comment_lines(block@).take(i as int) =~= comment_lines(block@));
    r
}

/// Appends the tokens of `src` to `dst`.
pub fn extend_lines(dst: &mut Vec<Line>, src: Vec<Line>)
    ensures
        lines_view(final(dst)@) == lines_view(old(dst)@) + lines_view(src@),
{
    let mut src = src;
    let ghost s0 = src@;
    let ghost d0 = dst@;
    dst.append(&mut src);
    assert(lines_view(dst@) =~= lines_view(d0) + lines_view(s0));
}

} // verus!
