use vstd::prelude::*;
use vstd::string::*;

use crate::line::{Line, LineView};
use crate::text::{concat, hex4, hex4_lower, hex_digits, hex_digits_lower, string_views};

verus! {

/// Output syntax of the listing.
#[derive(Clone, Copy, Debug, PartialEq, Eq, Structural)]
pub enum Format {
    Text,
    Html,
}

/// Width of a line before its comment, in characters.
pub const LINE_LEN: usize = 50;

/// `n` spaces; none when `n` is not positive.
pub open spec fn spaces(n: int) -> Seq<char> {
    Seq::new(if n > 0 { n as nat } else { 0 }, |i: int| ' ')
}

/// `s` padded with spaces to `width` characters.
pub open spec fn padded(s: Seq<char>, width: int) -> Seq<char> {
    s + spaces(width - s.len())
}

/// `i` is the first position of `c` in `s`.
pub open spec fn is_first(s: Seq<char>, c: char, i: int) -> bool {
    &&& 0 <= i < s.len()
    &&& s[i] == c
    &&& forall|j: int| 0 <= j < i ==> #[trigger] s[j] != c
}

/// First position of `c` in `s`, or its length when `c` does not occur.
pub open spec fn first_pos(s: Seq<char>, c: char) -> int {
    if exists|i: int| is_first(s, c, i) {
        choose|i: int| is_first(s, c, i)
    } else {
        s.len() as int
    }
}

/// `m` with each `@` replaced by `op`.
pub open spec fn replace_at(m: Seq<char>, op: Seq<char>) -> Seq<char>
    decreases m.len(),
{
    if m.len() == 0 {
        Seq::empty()
    } else {
        replace_at(m.drop_last(), op) + if m.last() == '@' {
            op
        } else {
            seq![m.last()]
        }
    }
}

pub open spec fn spec_comment(fmt: Format, c: Seq<char>) -> Seq<char> {
    match fmt {
        Format::Text => "; "@ + c,
        Format::Html => "<span class=\"asm-comment\">; "@ + c + "</span>"@,
    }
}

pub open spec fn spec_directive(fmt: Format, d: Seq<char>) -> Seq<char> {
    match fmt {
        Format::Text => d,
        Format::Html => "<span class=\"asm-directive\">"@ + d + "</span>"@,
    }
}

/// Where a symbol reference splits into the name and an offset suffix.
pub open spec fn offset_cut(s: Seq<char>) -> int {
    if first_pos(s, '+') < s.len() {
        first_pos(s, '+')
    } else {
        first_pos(s, '-')
    }
}

pub open spec fn spec_symbolref(fmt: Format, s: Seq<char>) -> Seq<char> {
    match fmt {
        Format::Text => s,
        Format::Html => {
            let name = s.take(offset_cut(s));
            "<a href=\"#"@ + name + "\" class=\"asm-symbol\">"@ + name + "</a>"@ + s.skip(offset_cut(s))
        },
    }
}

pub open spec fn spec_label(fmt: Format, s: Seq<char>) -> Seq<char> {
    match fmt {
        Format::Text => s + ":"@,
        Format::Html => "<span id=\""@ + s + "\" class=\"asm-label\">"@ + s + "</span>:"@,
    }
}

pub open spec fn spec_constant(fmt: Format, v: Seq<char>) -> Seq<char> {
    match fmt {
        Format::Text => v,
        Format::Html => "<span class=\"asm-const\">"@ + v + "</span>"@,
    }
}

pub open spec fn spec_address(fmt: Format, v: Seq<char>) -> Seq<char> {
    match fmt {
        Format::Text => v,
        Format::Html => "<span class=\"asm-addr\">"@ + v + "</span>"@,
    }
}

pub open spec fn spec_equate(fmt: Format, symbol: Seq<char>, value: Seq<char>, cmt: Seq<char>) -> Seq<char> {
    let line = match fmt {
        Format::Text => padded(symbol + " = "@ + spec_constant(fmt, value), LINE_LEN as int),
        Format::Html => "<span id=\""@ + symbol + "\" class=\"asm-label\">"@ + symbol + "</span> = "@
            + spec_constant(fmt, value) + "<span>"@ + spaces(
            LINE_LEN - (symbol.len() + 3 + value.len()),
        ) + "</span>"@,
    };
    line + spec_comment(fmt, cmt)
}

/// The operand as shown, and its width in characters.
pub open spec fn shown_operand(fmt: Format, mnemonic: Seq<char>, operand: Seq<char>, symbol: Option<Seq<char>>) -> (Seq<char>, int) {
    match symbol {
        Some(s) => (spec_symbolref(fmt, s), s.len() as int),
        None => if mnemonic == ".byte @"@ || mnemonic.contains('#') {
            (spec_constant(fmt, operand), operand.len() as int)
        } else {
            (spec_address(fmt, operand), operand.len() as int)
        },
    }
}

pub open spec fn spec_instruction(
    fmt: Format,
    mnemonic: Seq<char>,
    operand: Seq<char>,
    symbol: Option<Seq<char>>,
    addr: u16,
    hex: Seq<char>,
    cmt: Seq<char>,
) -> Seq<char> {
    let (op, n) = shown_operand(fmt, mnemonic, operand, symbol);
    let code = match fmt {
        Format::Text => padded("    "@ + replace_at(mnemonic, op), LINE_LEN as int),
        Format::Html => "    <span class=\"asm-code\">"@ + replace_at(mnemonic, op) + "</span>"@ + spaces(
            LINE_LEN - (mnemonic.len() + n - if mnemonic.contains('@') {
                1int
            } else {
                0int
            }),
        ),
    };
    code + spec_comment(fmt, hex_digits(addr as nat, 4) + " "@ + padded(hex, 8) + " ; "@ + cmt)
}

fn append_spaces(s: &mut String, n: usize)
    ensures
        final(s)@ == old(s)@ + spaces(n as int),
{
    let ghost s0 = s@;
    let mut i: usize = 0;
    while i < n
        invariant
            i <= n,
            s@ == s0 + spaces(i as int),
        decreases n - i,
    {
        s.append(" ");
        proof {
            reveal_strlit(" ");
        }
        assert(s@ =~= s0 + spaces(i as int + 1));
        i += 1;
    }
}

/// Pads `s` with spaces to `width` characters.
fn pad(s: &mut String, width: usize)
    ensures
        final(s)@ == padded(old(s)@, width as int),
{
    let len = s.as_str().unicode_len();
    if len < width {
        append_spaces(s, width - len);
    } else {
        append_spaces(s, 0);
    }
}

fn find_char(s: &str, c: char) -> (r: usize)
    ensures
        r == first_pos(s@, c),
{
    let n = s.unicode_len();
    let mut i: usize = 0;
    while i < n
        invariant
            n == s@.len(),
            i <= n,
            forall|j: int| 0 <= j < i ==> #[trigger] s@[j] != c,
        decreases n - i,
    {
        if s.get_char(i) == c {
            proof {
                assert(is_first(s@, c, i as int));
                let k = choose|k: int| is_first(s@, c, k);
                if k < i {
                    assert(s@[k] != c);
                } else if k > i {
                    assert(s@[i as int] != c);
                }
            }
            return i;
        }
        i += 1;
    }
    proof {
        if exists|k: int| is_first(s@, c, k) {
            let k = choose|k: int| is_first(s@, c, k);
            assert(s@[k] != c);
        }
    }
    n
}

/// Three pieces one after the other.
fn concat3(a: &str, b: &str, c: &str) -> (r: String)
    ensures
        r@ == a@ + b@ + c@,
{
    let mut s = concat(a, b);
    s.append(c);
    s
}

/// Text wrapped in a span of the given opening tag.
fn wrap(open: &str, v: &str) -> (r: String)
    ensures
        r@ == open@ + v@ + "</span>"@,
{
    concat3(open, v, "</span>")
}

pub fn comment(fmt: Format, text: &str) -> (r: String)
    ensures
        r@ == spec_comment(fmt, text@),
{
    match fmt {
        Format::Text => concat("; ", text),
        Format::Html => wrap("<span class=\"asm-comment\">; ", text),
    }
}

pub fn directive(fmt: Format, d: &str) -> (r: String)
    ensures
        r@ == spec_directive(fmt, d@),
{
    match fmt {
        Format::Text => String::from_str(d),
        Format::Html => wrap("<span class=\"asm-directive\">", d),
    }
}

/// A reference to a symbol; in markup a link to its label, with an offset
/// suffix kept outside the link.
pub fn symbolref(fmt: Format, symbol: &str) -> (r: String)
    ensures
        r@ == spec_symbolref(fmt, symbol@),
{
    match fmt {
        Format::Text => String::from_str(symbol),
        Format::Html => {
            let n = symbol.unicode_len();
            let plus = find_char(symbol, '+');
            let cut = if plus < n {
                plus
            } else {
                find_char(symbol, '-')
            };
            let name = symbol.substring_char(0, cut);
            let extra = symbol.substring_char(cut, n);
            let mut s = concat3("<a href=\"#", name, "\" class=\"asm-symbol\">");
            s.append(name);
            s.append("</a>");
            s.append(extra);
            assert(symbol@.subrange(0, cut as int) == symbol@.take(cut as int));
            assert(symbol@.subrange(cut as int, n as int) == symbol@.skip(cut as int));
            s
        },
    }
}

pub fn label(fmt: Format, symbol: &str) -> (r: String)
    ensures
        r@ == spec_label(fmt, symbol@),
{
    match fmt {
        Format::Text => concat(symbol, ":"),
        Format::Html => {
            let mut s = concat3("<span id=\"", symbol, "\" class=\"asm-label\">");
            s.append(symbol);
            s.append("</span>:");
            s
        },
    }
}

fn constant(fmt: Format, value: &str) -> (r: String)
    ensures
        r@ == spec_constant(fmt, value@),
{
    match fmt {
        Format::Text => String::from_str(value),
        Format::Html => wrap("<span class=\"asm-const\">", value),
    }
}

fn address(fmt: Format, value: &str) -> (r: String)
    ensures
        r@ == spec_address(fmt, value@),
{
    match fmt {
        Format::Text => String::from_str(value),
        Format::Html => wrap("<span class=\"asm-addr\">", value),
    }
}

/// A symbol defined as a value, with a trailing comment.
pub fn equate(fmt: Format, symbol: &str, value: &str, cmt: &str) -> (r: String)
    ensures
        r@ == spec_equate(fmt, symbol@, value@, cmt@),
{
    let vlen = value.unicode_len();
    let v = constant(fmt, value);
    let mut line = match fmt {
        Format::Text => {
            let mut line = concat3(symbol, " = ", v.as_str());
            pad(&mut line, LINE_LEN);
            line
        },
        Format::Html => {
            let mut line = concat3("<span id=\"", symbol, "\" class=\"asm-label\">");
            line.append(symbol);
            line.append("</span> = ");
            line.append(v.as_str());
            line.append("<span>");
            let used = symbol.unicode_len() as u128 + 3 + vlen as u128;
            if used < LINE_LEN as u128 {
                append_spaces(&mut line, LINE_LEN - used as usize);
            }
            line.append("</span>");
            line
        },
    };
    let c = comment(fmt, cmt);
    line.append(c.as_str());
    line
}

/// `m` with each `@` replaced by `op`.
fn replace_operand(m: &str, op: &str) -> (r: String)
    ensures
        r@ == replace_at(m@, op@),
{
    let n = m.unicode_len();
    let mut s = String::new();
    let mut i: usize = 0;
    while i < n
        invariant
            n == m@.len(),
            i <= n,
            s@ == replace_at(m@.take(i as int), op@),
        decreases n - i,
    {
        assert(m@.take(i as int + 1).drop_last() == m@.take(i as int));
        if m.get_char(i) == '@' {
            s.append(op);
        } else {
            s.append(m.substring_char(i, i + 1));
            assert(m@.subrange(i as int, i as int + 1) =~= seq![m@[i as int]]);
        }
        i += 1;
    }
    assert(m@.take(n as int) == m@);
    s
}

fn contains_char(s: &str, c: char) -> (r: bool)
    ensures
        r == s@.contains(c),
{
    let n = s.unicode_len();
    let i = find_char(s, c);
    proof {
        if i < n {
            assert(is_first(s@, c, i as int));
        } else if s@.contains(c) {
            let k = choose|k: int| 0 <= k < s@.len() && s@[k] == c;
            lemma_first_exists(s@, c, k);
        }
    }
    i < n
}

proof fn lemma_first_exists(s: Seq<char>, c: char, k: int)
    requires
        0 <= k < s.len(),
        s[k] == c,
    ensures
        exists|f: int| is_first(s, c, f),
    decreases k,
{
    if forall|j: int| 0 <= j < k ==> #[trigger] s[j] != c {
        assert(is_first(s, c, k));
    } else {
        let j = choose|j: int| 0 <= j < k && #[trigger] s[j] == c;
        lemma_first_exists(s, c, j);
    }
}

/// One instruction or data line: the code, padded, then a comment with the
/// address, the bytes and the trailing comment.
pub fn instruction(
    fmt: Format,
    mnemonic: &str,
    operand: &str,
    symbol: Option<&str>,
    addr: u16,
    hex: &str,
    cmt: &str,
) -> (r: String)
    ensures
        r@ == spec_instruction(
            fmt,
            mnemonic@,
            operand@,
            match symbol {
                Some(s) => Some(s@),
                None => None,
            },
            addr,
            hex@,
            cmt@,
        ),
{
    let byte_template = ".byte @";
    let (op, n) = match symbol {
        Some(s) => (symbolref(fmt, s), s.unicode_len()),
        None => {
            let is_byte = String::from_str(mnemonic) == String::from_str(byte_template);
            if is_byte || contains_char(mnemonic, '#') {
                (constant(fmt, operand), operand.unicode_len())
            } else {
                (address(fmt, operand), operand.unicode_len())
            }
        },
    };
    let replaced = replace_operand(mnemonic, op.as_str());
    let mut i = match fmt {
        Format::Text => {
            let mut i = concat("    ", replaced.as_str());
            pad(&mut i, LINE_LEN);
            i
        },
        Format::Html => {
            let mut i = concat3("    <span class=\"asm-code\">", replaced.as_str(), "</span>");
            let m: u128 = if contains_char(mnemonic, '@') {
                1
            } else {
                0
            };
            let used: u128 = mnemonic.unicode_len() as u128 + n as u128;
            if used >= m && used - m < LINE_LEN as u128 {
                append_spaces(&mut i, LINE_LEN - (used - m) as usize);
            }
            i
        },
    };
    let a = hex4(addr);
    let mut h = String::from_str(hex);
    pad(&mut h, 8);
    let mut tail = concat3(a.as_str(), " ", h.as_str());
    tail.append(" ; ");
    tail.append(cmt);
    let c = comment(fmt, tail.as_str());
    i.append(c.as_str());
    i
}

/// Text of one token.
pub open spec fn spec_render(fmt: Format, l: LineView) -> Seq<char> {
    match l {
        LineView::Label(s) => spec_label(fmt, s),
        LineView::Instruction { mnemonic, operand, symbol, addr, hex, comment } => spec_instruction(
            fmt,
            mnemonic,
            operand,
            symbol,
            addr,
            hex,
            comment,
        ),
        LineView::Comment(s) => spec_comment(fmt, s),
        LineView::Directive(s) => spec_directive(fmt, s),
        LineView::Equate(a, s) => spec_equate(fmt, s, "$"@ + hex_digits_lower(a as nat, 4), Seq::empty()),
    }
}

/// Renders one token as a line of text.
pub fn render(fmt: Format, line: &Line) -> (r: String)
    ensures
        r@ == spec_render(fmt, line@),
{
    match line {
        Line::Label(s) => label(fmt, s.as_str()),
        Line::Instruction(i) => {
            let sym = match &i.symbol {
                Some(s) => Some(s.as_str()),
                None => None,
            };
            instruction(
                fmt,
                i.mnemonic.as_str(),
                i.operand.as_str(),
                sym,
                i.addr,
                i.hex.as_str(),
                i.comment.as_str(),
            )
        },
        Line::Comment(s) => comment(fmt, s.as_str()),
        Line::Directive(s) => directive(fmt, s.as_str()),
        Line::Equate(a, s) => {
            let h = hex4_lower(*a);
            let v = concat("$", h.as_str());
            proof {
                reveal_strlit("");
            }
            equate(fmt, s.as_str(), v.as_str(), "")
        },
    }
}

/// Table rows of a markup document, three lines for each line of text.
pub open spec fn table_rows(lines: Seq<Seq<char>>) -> Seq<Seq<char>>
    decreases lines.len(),
{
    if lines.len() == 0 {
        Seq::empty()
    } else {
        table_rows(lines.drop_last()) + seq!["<tr>"@, "<td>"@ + lines.last() + "</td>"@, "</tr>"@]
    }
}

pub open spec fn spec_document(fmt: Format, title: Seq<char>, style: Seq<char>, lines: Seq<Seq<char>>) -> Seq<Seq<char>> {
    match fmt {
        Format::Text => lines,
        Format::Html => seq![
            "<html>"@,
            "<head>"@,
            "<title>"@ + title + "</title>"@,
            "<style>"@,
            style,
            "</style>"@,
            "</head>"@,
            "<body>"@,
            "<table>"@,
        ] + table_rows(lines) + seq!["</table>"@, "</body>"@, "</html>"@],
    }
}

/// The whole document: the lines as they are, or in markup a page that
/// holds them as a table.
pub fn document(fmt: Format, title: &str, style: &str, lines: Vec<String>) -> (r: Vec<String>)
    ensures
        string_views(r@) == spec_document(fmt, title@, style@, string_views(lines@)),
{
    match fmt {
        Format::Text => lines,
        Format::Html => {
            let ghost lv = string_views(lines@);
            let mut doc: Vec<String> = Vec::new();
            doc.push(String::from_str("<html>"));
            doc.push(String::from_str("<head>"));
            doc.push(concat3("<title>", title, "</title>"));
            doc.push(String::from_str("<style>"));
            doc.push(String::from_str(style));
            doc.push(String::from_str("</style>"));
            doc.push(String::from_str("</head>"));
            doc.push(String::from_str("<body>"));
            doc.push(String::from_str("<table>"));
            let ghost head = string_views(doc@);
            assert(head =~= seq![
                "<html>"@,
                "<head>"@,
                "<title>"@ + title@ + "</title>"@,
                "<style>"@,
                style@,
                "</style>"@,
                "</head>"@,
                "<body>"@,
                "<table>"@,
            ]);
            let mut i: usize = 0;
            while i < lines.len()
                invariant
                    i <= lines@.len(),
                    lv == string_views(lines@),
                    string_views(doc@) =~= head + table_rows(lv.take(i as int)),
                decreases lines@.len() - i,
            {
                let ghost d0 = string_views(doc@);
                doc.push(String::from_str("<tr>"));
                doc.push(concat3("<td>", lines[i].as_str(), "</td>"));
                doc.push(String::from_str("</tr>"));
                assert(lv.take(i as int + 1).drop_last() =~= lv.take(i as int));
                assert(string_views(doc@) =~= d0 + seq!["<tr>"@, "<td>"@ + lv[i as int] + "</td>"@, "</tr>"@]);
                i += 1;
            }
            let ghost body = string_views(doc@);
            doc.push(String::from_str("</table>"));
            doc.push(String::from_str("</body>"));
            doc.push(String::from_str("</html>"));
            assert(lv.take(i as int) =~= lv);
            assert(string_views(doc@) =~= body + seq!["</table>"@, "</body>"@, "</html>"@]);
            doc
        },
    }
}

} // verus!
