use ascii_forge::buffer::Buffer;
use crossterm::style::{Color, ContentStyle, Stylize};
use ascii_forge::cell::Cell;
use ascii_forge::math::vec2;
use ascii_forge::render::{render_text, render_text_clipped, CharString, Render};

fn text_at(buffer: &Buffer, x: u16, y: u16) -> String {
    buffer.get(vec2(x, y)).unwrap().text().to_string()
}

#[test]
fn new_buffer_is_empty_spaces() {
    let buffer = Buffer::new(vec2(4, 3));
    assert_eq!(buffer.size(), vec2(4, 3));
    for y in 0..3 {
        for x in 0..4 {
            let cell = buffer.get(vec2(x, y)).unwrap();
            assert_eq!(cell.text(), " ");
            assert_eq!(cell.width(), 1);
            assert!(cell.is_empty());
        }
    }
}

#[test]
fn out_of_bounds_is_no_cell() {
    let mut buffer = Buffer::new(vec2(4, 3));
    assert!(buffer.get(vec2(4, 0)).is_none());
    assert!(buffer.get(vec2(0, 3)).is_none());
    // Past the end of a row is not the next row.
    buffer.set(vec2(5, 0), Cell::chr('a'));
    assert_eq!(text_at(&buffer, 1, 1), " ");
}

#[test]
fn set_replaces_one_cell() {
    let mut buffer = Buffer::new(vec2(4, 3));
    buffer.set(vec2(2, 1), Cell::chr('a'));
    assert_eq!(text_at(&buffer, 2, 1), "a");
    assert_eq!(text_at(&buffer, 3, 1), " ");
    assert_eq!(text_at(&buffer, 1, 1), " ");
}

#[test]
fn wide_cell_sets_continuation() {
    let mut buffer = Buffer::new(vec2(4, 1));
    buffer.set(vec2(1, 0), Cell::chr('x'));
    buffer.set(vec2(2, 0), Cell::chr('y'));
    buffer.set(vec2(1, 0), Cell::chr('中'));
    assert_eq!(buffer.get(vec2(1, 0)).unwrap().width(), 2);
    assert_eq!(text_at(&buffer, 2, 0), " ");
    assert!(buffer.get(vec2(2, 0)).unwrap().same_as(&Cell::default()));
}

#[test]
fn diff_reports_changes_and_skips_continuations() {
    let old = Buffer::new(vec2(5, 2));
    let mut new = Buffer::new(vec2(5, 2));
    new.set(vec2(0, 0), Cell::chr('a'));
    new.set(vec2(2, 0), Cell::chr('中'));
    new.set(vec2(4, 1), Cell::chr('b'));
    let diff = old.diff(&new);
    let places: Vec<_> = diff.iter().map(|(loc, cell)| (*loc, cell.text().to_string())).collect();
    assert_eq!(
        places,
        vec![
            (vec2(0, 0), "a".to_string()),
            (vec2(2, 0), "中".to_string()),
            (vec2(4, 1), "b".to_string()),
        ]
    );
}

#[test]
fn diff_passes_over_a_changed_continuation() {
    let mut old = Buffer::new(vec2(3, 1));
    old.set(vec2(1, 0), Cell::chr('z'));
    let mut new = Buffer::new(vec2(3, 1));
    new.set(vec2(0, 0), Cell::chr('中'));
    let diff = old.diff(&new);
    // Column 1 differs (z against the placeholder) but lies under the wide glyph.
    assert_eq!(diff.len(), 1);
    assert_eq!(diff[0].0, vec2(0, 0));
}

#[test]
fn diff_of_equal_buffers_is_empty() {
    let mut a = Buffer::new(vec2(6, 4));
    let mut b = Buffer::new(vec2(6, 4));
    a.set(vec2(3, 3), Cell::chr('q'));
    b.set(vec2(3, 3), Cell::chr('q'));
    assert!(a.diff(&b).is_empty());
}

#[test]
fn repaint_lists_every_cell() {
    let mut b = Buffer::new(vec2(3, 2));
    b.set(vec2(0, 1), Cell::chr('中'));
    let all = b.repaint();
    assert_eq!(all.len(), 5);
    assert_eq!(all[3].0, vec2(0, 1));
    assert_eq!(all[4].0, vec2(2, 1));
}

#[test]
fn resize_and_back_keeps_the_overlap() {
    let mut b = Buffer::new(vec2(4, 3));
    b.set(vec2(0, 0), Cell::chr('a'));
    b.set(vec2(3, 2), Cell::chr('b'));
    b.set(vec2(1, 1), Cell::chr('c'));
    b.resize(vec2(2, 2));
    assert_eq!(b.size(), vec2(2, 2));
    b.resize(vec2(4, 3));
    assert_eq!(b.size(), vec2(4, 3));
    assert_eq!(text_at(&b, 0, 0), "a");
    assert_eq!(text_at(&b, 1, 1), "c");
    assert_eq!(text_at(&b, 3, 2), " ");
}

#[test]
fn resize_grows_with_empty_cells() {
    let mut b = Buffer::new(vec2(1, 1));
    b.set(vec2(0, 0), Cell::chr('a'));
    b.resize(vec2(3, 2));
    assert_eq!(text_at(&b, 0, 0), "a");
    assert_eq!(text_at(&b, 2, 1), " ");
}

#[test]
fn shrink_to_top_left_content() {
    let mut b = Buffer::new(vec2(50, 40));
    b.set(vec2(2, 0), Cell::chr('a'));
    b.set(vec2(0, 1), Cell::chr('b'));
    b.shrink();
    assert_eq!(b.size(), vec2(3, 2));
    assert_eq!(text_at(&b, 2, 0), "a");
    assert_eq!(text_at(&b, 0, 1), "b");
}

#[test]
fn shrink_of_blank_buffer_is_one_by_one() {
    let mut b = Buffer::new(vec2(7, 7));
    b.shrink();
    assert_eq!(b.size(), vec2(1, 1));
}

#[test]
fn fill_and_clear() {
    let mut b = Buffer::new(vec2(2, 2));
    b.fill(Cell::chr('#'));
    assert_eq!(text_at(&b, 1, 1), "#");
    b.clear();
    assert_eq!(text_at(&b, 1, 1), " ");
    assert_eq!(b.size(), vec2(2, 2));
}

#[test]
fn sized_element_round_trip() {
    let scratch = Buffer::sized_element("ab\ncd");
    assert_eq!(scratch.size(), vec2(2, 2));
    let mut target = Buffer::new(scratch.size());
    target.set(vec2(1, 1), Cell::chr('z'));
    scratch.render(vec2(0, 0), &mut target);
    assert!(scratch.diff(&target).is_empty());
    assert_eq!(text_at(&target, 1, 1), "d");
}

#[test]
fn text_renders_lines_from_the_start_column() {
    let mut b = Buffer::new(vec2(10, 5));
    let end = render_text("ab\ncde", None, vec2(2, 1), &mut b);
    assert_eq!(end, vec2(5, 2));
    assert_eq!(text_at(&b, 2, 1), "a");
    assert_eq!(text_at(&b, 3, 1), "b");
    assert_eq!(text_at(&b, 2, 2), "c");
    assert_eq!(text_at(&b, 4, 2), "e");
}

#[test]
fn clipped_text_stays_in_its_box() {
    let mut b = Buffer::new(vec2(10, 5));
    render_text_clipped("abcdef\nghi\njkl", None, vec2(1, 1), vec2(3, 2), &mut b);
    assert_eq!(text_at(&b, 3, 1), "c");
    assert_eq!(text_at(&b, 4, 1), " ");
    assert_eq!(text_at(&b, 1, 2), "g");
    assert_eq!(text_at(&b, 1, 3), " ");
}

#[test]
fn wide_char_does_not_fit_a_one_column_clip() {
    let mut b = Buffer::new(vec2(4, 1));
    '中'.render_clipped(vec2(0, 0), vec2(1, 1), &mut b);
    assert_eq!(text_at(&b, 0, 0), " ");
    'x'.render_clipped(vec2(0, 0), vec2(1, 1), &mut b);
    assert_eq!(text_at(&b, 0, 0), "x");
}

#[test]
fn sequence_renders_one_after_another() {
    let mut b = Buffer::new(vec2(10, 2));
    let parts = vec!["ab".to_string(), "cd".to_string()];
    let end = parts.render(vec2(0, 0), &mut b);
    assert_eq!(end, vec2(4, 0));
    assert_eq!(text_at(&b, 2, 0), "c");
}

#[test]
fn size_measures_by_rendering() {
    assert_eq!("abc\nde".size(), vec2(3, 2));
    assert_eq!('中'.size(), vec2(2, 1));
}

#[test]
fn cell_widths_and_emptiness() {
    assert_eq!(Cell::chr('a').width(), 1);
    assert_eq!(Cell::chr('中').width(), 2);
    assert_eq!(Cell::string("ab").width(), 2);
    assert!(Cell::string(" \t").is_empty());
    assert!(!Cell::string(" a").is_empty());
    assert!(Cell::string("").is_empty());
    assert!(Cell::default().is_empty());
    assert_eq!(Cell::string("xy").text(), "xy");
    assert!(Cell::chr('a').style().is_none());
}

#[test]
fn styled_cells_compare_by_style() {
    let red = ContentStyle {
        foreground_color: Some(Color::Red),
        ..ContentStyle::default()
    };
    let a = Cell::new("a", red);
    let b = Cell::new("a", red);
    let plain = Cell::chr('a');
    assert!(a.same_as(&b));
    assert!(!a.same_as(&plain));
    let from_styled = Cell::styled("hi".red());
    assert_eq!(from_styled.text(), "hi");
    assert_eq!(from_styled.width(), 2);
    assert!(from_styled.style().is_some());
}

#[test]
fn char_string_is_one_cell() {
    let glyph = CharString::new("ab".blue());
    let mut b = Buffer::new(vec2(4, 1));
    glyph.render(vec2(1, 0), &mut b);
    assert_eq!(text_at(&b, 1, 0), "ab");
    assert_eq!(b.get(vec2(1, 0)).unwrap().width(), 2);
    let mut c = Buffer::new(vec2(4, 1));
    let end = glyph.render_clipped(vec2(0, 0), vec2(1, 1), &mut c);
    assert_eq!(end, vec2(0, 0));
    assert_eq!(text_at(&c, 0, 0), " ");
}

#[test]
fn get_mut_changes_one_cell() {
    let mut b = Buffer::new(vec2(3, 2));
    b.get_mut(vec2(1, 1)).unwrap().text_mut().push('!');
    assert_eq!(text_at(&b, 1, 1), " !");
    assert!(b.get_mut(vec2(3, 0)).is_none());
    assert_eq!(text_at(&b, 0, 1), " ");
}

#[test]
fn default_style_equals_no_style() {
    let a = Cell::new("a", ContentStyle::default());
    assert!(a.same_as(&Cell::string("a")));
    assert!(a.style().is_none());
    let old = Buffer::new(vec2(2, 1));
    let mut new = Buffer::new(vec2(2, 1));
    new.set(vec2(0, 0), Cell::new(" ", ContentStyle::default()));
    assert!(old.diff(&new).is_empty());
}
