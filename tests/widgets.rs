use ascii_forge::buffer::Buffer;
use ascii_forge::cell::Cell;
use ascii_forge::elements::nine_slice::NineSlice;
use ascii_forge::math::{vec2, Vec2};
use ascii_forge::render::Render;
use ascii_forge::widgets::border::Border;

fn text_at(buffer: &Buffer, x: u16, y: u16) -> String {
    buffer.get(vec2(x, y)).unwrap().text().to_string()
}

#[test]
fn render_small() {
    let border = Border::square(0, 0);
    // Ensure no panics
    let _ = Buffer::sized_element(border);
}

#[test]
fn check_size() {
    let border = Border::square(16, 16);
    let mut buf = Buffer::new((80, 80).into());
    border.render(Vec2::from((0, 0)), &mut buf);
    buf.shrink();
    assert_eq!(buf.size(), border.size())
}

#[test]
fn border_draws_corners_edges_and_title() {
    let border = Border::rounded(6, 3).with_title("ab");
    let mut buf = Buffer::new(vec2(8, 4));
    let inner = border.render(vec2(1, 0), &mut buf);
    assert_eq!(inner, vec2(2, 1));
    assert_eq!(text_at(&buf, 1, 0), "╭");
    assert_eq!(text_at(&buf, 2, 0), "a");
    assert_eq!(text_at(&buf, 3, 0), "b");
    assert_eq!(text_at(&buf, 4, 0), "─");
    assert_eq!(text_at(&buf, 6, 0), "╮");
    assert_eq!(text_at(&buf, 1, 1), "│");
    assert_eq!(text_at(&buf, 6, 2), "╯");
    assert_eq!(text_at(&buf, 7, 1), " ");
}

#[test]
fn other_border_kinds() {
    let mut buf = Buffer::new(vec2(3, 3));
    Border::double(3, 3).render(vec2(0, 0), &mut buf);
    assert_eq!(text_at(&buf, 0, 0), "╔");
    Border::thick(3, 3).render(vec2(0, 0), &mut buf);
    assert_eq!(text_at(&buf, 2, 2), "┛");
}

#[test]
fn nine_slice_fills_its_box() {
    let cells = ['1', '2', '3', '4', '5', '6', '7', '8', '9'].map(Cell::chr);
    let slice = NineSlice::new(cells, vec2(4, 3));
    let mut buf = Buffer::new(vec2(5, 4));
    slice.render(vec2(1, 1), &mut buf);
    assert_eq!(text_at(&buf, 1, 1), "1");
    assert_eq!(text_at(&buf, 2, 1), "2");
    assert_eq!(text_at(&buf, 4, 1), "3");
    assert_eq!(text_at(&buf, 1, 2), "4");
    assert_eq!(text_at(&buf, 3, 2), "5");
    assert_eq!(text_at(&buf, 4, 2), "6");
    assert_eq!(text_at(&buf, 1, 3), "7");
    assert_eq!(text_at(&buf, 4, 3), "9");
    assert_eq!(text_at(&buf, 0, 0), " ");
}
