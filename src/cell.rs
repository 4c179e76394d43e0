use crossterm::style::{ContentStyle, StyledContent};
use vstd::string::StrSliceExecFns;
use vstd::prelude::*;

verus! {

#[verifier::external_type_specification]
#[verifier::external_body]
pub struct ExContentStyle(ContentStyle);

/// The display width, in terminal columns, of a piece of text.
pub uninterp spec fn text_width(s: Seq<char>) -> nat;

/// Whether a character has the Unicode `White_Space` property.
pub open spec fn is_white_space(c: char) -> bool {
    let u = c as u32;
    (0x09 <= u && u <= 0x0d) || u == 0x20 || u == 0x85 || u == 0xa0 || u == 0x1680 || (0x2000
        <= u && u <= 0x200a) || u == 0x2028 || u == 0x2029 || u == 0x202f || u == 0x205f || u
        == 0x3000
}

/// Whether a text holds nothing but white space (it trims to the empty string).
pub open spec fn is_blank(s: Seq<char>) -> bool {
    forall|i: int| 0 <= i < s.len() ==> is_white_space(#[trigger] s[i])
}

/// Relies on unicode_width's `UnicodeWidthStr::width`: the width is a function
/// of the characters alone; the empty text is 0 columns wide and a text of one
/// character no greater than U+00A0 is 1 column wide.
#[verifier::external_body]
pub(crate) fn measure_text(s: &str) -> (r: usize)
    ensures
        r == text_width(s@),
        s@.len() == 0 ==> r == 0,
        (s@.len() == 1 && (s@[0] as u32) <= 0xa0) ==> r == 1,
{
    unicode_width::UnicodeWidthStr::width(s)
}

#[verifier::external_type_specification]
#[verifier::external_body]
#[verifier::reject_recursive_types(D)]
pub struct ExStyledContent<D: std::fmt::Display>(StyledContent<D>);

/// Relies on crossterm's `StyledContent::content` and `StyledContent::style`,
/// and on the content's own `Display`: nothing is known of the text it writes.
#[verifier::external_body]
pub(crate) fn styled_parts<D: std::fmt::Display>(c: &StyledContent<D>) -> (r: (String, ContentStyle)) {
    (format!("{}", c.content()), *c.style())
}

/// Relies on std's `char::is_whitespace`, documented as the Unicode
/// `White_Space` property.
#[verifier::external_body]
fn char_is_whitespace(c: char) -> (r: bool)
    ensures
        r == is_white_space(c),
{
    c.is_whitespace()
}

/// Relies on std's `char::to_string`: a text holding exactly that character.
#[verifier::external_body]
pub(crate) fn char_text(c: char) -> (r: String)
    ensures
        r@ == seq![c],
{
    c.to_string()
}

/// Relies on crossterm's `ContentStyle` equality, which is derived over its
/// colours and attribute bits and so coincides with equality of values.
#[verifier::external_body]
pub(crate) fn same_style(a: &ContentStyle, b: &ContentStyle) -> (r: bool)
    ensures
        r == (*a == *b),
{
    *a == *b
}

/// The mathematical content of a cell: its text, its style and the width that
/// was measured for its text when it was made.
pub struct CellView {
    pub text: Seq<char>,
    pub style: Option<ContentStyle>,
    pub width: u16,
}

/// A cell that stores a symbol, and the style that will be applied to it.
#[derive(Debug)]
pub struct Cell {
    text: String,
    /// `None` stands for the terminal's own style: no colours, no attributes.
    style: Option<ContentStyle>,
    width: u16,
}

/// The width a cell records for its text.
pub open spec fn width_of(text: Seq<char>) -> u16 {
    text_width(text) as u16
}

/// Whether a style is crossterm's default one: no colours, no attributes.
pub uninterp spec fn is_plain_style(s: ContentStyle) -> bool;

/// Relies on crossterm's `ContentStyle::default` and its derived equality:
/// the answer depends on the style alone.
#[verifier::external_body]
fn style_is_plain(s: &ContentStyle) -> (r: bool)
    ensures
        r == is_plain_style(*s),
{
    *s == ContentStyle::default()
}

/// The style a cell keeps: the default style is kept as `None`, so that a
/// cell made with it equals one made without a style.
pub open spec fn kept_style(style: Option<ContentStyle>) -> Option<ContentStyle> {
    match style {
        Some(s) => if is_plain_style(s) {
            None
        } else {
            Some(s)
        },
        None => None,
    }
}

/// The view of a cell made from a text and a style.
pub open spec fn cell_of(text: Seq<char>, style: Option<ContentStyle>) -> CellView {
    CellView { text, style: kept_style(style), width: width_of(text) }
}

/// The view of the empty cell: one space, unstyled.
pub open spec fn empty_cell() -> CellView {
    cell_of(seq![' '], None)
}

impl View for Cell {
    type V = CellView;

    closed spec fn view(&self) -> CellView {
        CellView { text: self.text@, style: self.style, width: self.width }
    }
}

impl Clone for Cell {
    fn clone(&self) -> (r: Cell)
        ensures
            r@ == self@,
    {
        Cell { text: self.text.clone(), style: self.style, width: self.width }
    }
}

impl Default for Cell {
    /// The empty cell: a single unstyled space.
    fn default() -> (r: Cell)
        ensures
            r@ == empty_cell(),
    {
        Cell::chr(' ')
    }
}

impl Cell {
    /// Creates a cell from a text and a style; the width is measured once, here.
    pub fn new(text: &str, style: ContentStyle) -> (r: Cell)
        ensures
            r@ == cell_of(text@, Some(style)),
    {
        let w = measure_text(text);
        let kept = if style_is_plain(&style) {
            None
        } else {
            Some(style)
        };
        Cell { text: text.to_string(), style: kept, width: w as u16 }
    }

    /// Creates an unstyled cell holding the given text.
    pub fn string(text: &str) -> (r: Cell)
        ensures
            r@ == cell_of(text@, None),
    {
        let w = measure_text(text);
        Cell { text: text.to_string(), style: None, width: w as u16 }
    }

    /// Creates an unstyled cell holding one character.
    pub fn chr(c: char) -> (r: Cell)
        ensures
            r@ == cell_of(seq![c], None),
    {
        let text = char_text(c);
        let w = measure_text(text.as_str());
        Cell { text, style: None, width: w as u16 }
    }

    /// Creates a cell from the text and the style of a piece of styled content.
    pub fn styled<D: std::fmt::Display>(content: StyledContent<D>) -> (r: Cell)
        ensures
            r@ == cell_of(r@.text, r@.style),
    {
        let (text, style) = styled_parts(&content);
        Cell::new(text.as_str(), style)
    }

    /// The number of columns this cell covers, measured when it was made.
    pub fn width(&self) -> (r: u16)
        ensures
            r == self@.width,
    {
        self.width
    }

    /// Whether the cell shows nothing: its text is empty or white space only.
    pub fn is_empty(&self) -> (r: bool)
        ensures
            r == is_blank(self@.text),
    {
        let n = self.text.unicode_len();
        let mut i: usize = 0;
        while i < n
            invariant
                n == self@.text.len(),
                i <= n,
                forall|j: int| 0 <= j < i ==> is_white_space(#[trigger] self@.text[j]),
            decreases n - i,
        {
            if !char_is_whitespace(self.text.get_char(i)) {
                return false;
            }
            i = i + 1;
        }
        true
    }

    /// The text of the cell.
    pub fn text(&self) -> (r: &str)
        ensures
            r@ == self@.text,
    {
        self.text.as_str()
    }

    /// The text of the cell, to change it in place; the width stays as it
    /// was measured when the cell was made.
    pub fn text_mut(&mut self) -> (r: &mut String)
        ensures
            r@ == old(self)@.text,
            final(self)@ == (CellView { text: final(r)@, ..old(self)@ }),
    {
        &mut self.text
    }

    /// The style of the cell, to change it in place.
    pub fn style_mut(&mut self) -> (r: &mut Option<ContentStyle>)
        ensures
            *r == old(self)@.style,
            final(self)@ == (CellView { style: *final(r), ..old(self)@ }),
    {
        &mut self.style
    }

    /// The style of the cell; `None` for the terminal's own style.
    pub fn style(&self) -> (r: Option<ContentStyle>)
        ensures
            r == self@.style,
    {
        self.style
    }

    /// Whether two cells hold the same text, style and width.
    pub fn same_as(&self, other: &Cell) -> (r: bool)
        ensures
            r == (self@ == other@),
    {
        let same_text = self.text == other.text;
        let same_width = self.width == other.width;
        let same_styles = match (&self.style, &other.style) {
            (None, None) => true,
            (Some(a), Some(b)) => same_style(a, b),
            _ => false,
        };
        same_text && same_width && same_styles
    }
}

} // verus!
