use minitools::drawing::{draw_circle, draw_rectangle, draw_triangle};

#[test]
fn rectangle_rows() {
    assert_eq!(draw_rectangle(3, 2), vec!["***", "***"]);
    assert_eq!(draw_rectangle(1, 1), vec!["*"]);
    assert_eq!(draw_rectangle(0, 2), vec!["", ""]);
    assert_eq!(draw_rectangle(5, 0), Vec::<String>::new());
}

#[test]
fn triangle_rows() {
    assert_eq!(draw_triangle(3), vec!["*", "**", "***"]);
    assert_eq!(draw_triangle(1), vec!["*"]);
    assert_eq!(draw_triangle(0), Vec::<String>::new());
}

#[test]
fn circle_rows() {
    assert_eq!(draw_circle(0), vec!["*"]);
    assert_eq!(draw_circle(1), vec![" * ", "***", " * "]);
    assert_eq!(draw_circle(2), vec!["  *  ", " *** ", "*****", " *** ", "  *  "]);
    assert_eq!(
        draw_circle(3),
        vec!["   *   ", " ***** ", " ***** ", "*******", " ***** ", " ***** ", "   *   "]
    );
}

#[test]
fn circle_is_the_set_of_points_within_the_radius() {
    for radius in 0..20u32 {
        let rows = draw_circle(radius);
        assert_eq!(rows.len() as u32, 2 * radius + 1);
        let r = radius as f64;
        for (row, line) in rows.iter().enumerate() {
            assert_eq!(line.len() as u32, 2 * radius + 1);
            for (col, c) in line.chars().enumerate() {
                let x = col as f64 - r;
                let y = row as f64 - r;
                let inside = x * x + y * y <= r * r;
                assert_eq!(c, if inside { '*' } else { ' ' });
            }
        }
    }
}
