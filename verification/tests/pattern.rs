use amogus::pattern::Part;
use amogus::pattern::Pattern;

const R: Part = Part::Rest;
const C: Part = Part::Body;
const V: Part = Part::Face;

fn rows(pattern: &Pattern) -> Vec<Vec<Part>> {
    let mut all = Vec::new();
    for y in 0..pattern.height() {
        let mut row = Vec::new();
        for x in 0..pattern.width() {
            row.push(pattern.part(x, y));
        }
        all.push(row);
    }
    all
}

#[test]
fn base_pattern_is_the_five_by_seven_glyph() {
    let base = Pattern::base();
    assert_eq!(base.width(), 5);
    assert_eq!(base.height(), 7);
    assert_eq!(
        rows(&base),
        vec![
            vec![R, R, R, R, R],
            vec![R, C, C, C, R],
            vec![C, C, V, V, R],
            vec![C, C, C, C, R],
            vec![R, C, C, C, R],
            vec![R, C, R, C, R],
            vec![R, R, R, R, R],
        ]
    );
    assert!(base.has_every_part());
}

#[test]
fn new_keeps_the_rows_it_is_given() {
    let made = Pattern::new(vec![vec![R, C, V], vec![V, C, R]]).unwrap();
    assert_eq!(made.width(), 3);
    assert_eq!(made.height(), 2);
    assert_eq!(rows(&made), vec![vec![R, C, V], vec![V, C, R]]);
}

#[test]
fn new_rejects_what_is_not_a_rectangle() {
    assert!(Pattern::new(vec![]).is_none());
    assert!(Pattern::new(vec![vec![]]).is_none());
    assert!(Pattern::new(vec![vec![], vec![]]).is_none());
    assert!(Pattern::new(vec![vec![R, C], vec![R]]).is_none());
    assert!(Pattern::new(vec![vec![R], vec![R, C]]).is_none());
    assert!(Pattern::new(vec![vec![R]]).is_some());
}

#[test]
fn rev_mirrors_every_row() {
    let flipped = Pattern::base().rev();
    assert_eq!(flipped.width(), 5);
    assert_eq!(flipped.height(), 7);
    assert_eq!(
        rows(&flipped),
        vec![
            vec![R, R, R, R, R],
            vec![R, C, C, C, R],
            vec![R, V, V, C, C],
            vec![R, C, C, C, C],
            vec![R, C, C, C, R],
            vec![R, C, R, C, R],
            vec![R, R, R, R, R],
        ]
    );
}

#[test]
fn rev_twice_gives_the_pattern_back() {
    let base = Pattern::base();
    assert_eq!(base.rev().rev(), base);
    assert_ne!(base.rev(), base);
    let odd = Pattern::new(vec![vec![R, C, V, V], vec![V, R, R, C], vec![C, C, C, R]]).unwrap();
    assert_eq!(odd.rev().rev(), odd);
    let single = Pattern::new(vec![vec![V]]).unwrap();
    assert_eq!(single.rev(), single);
}

#[test]
fn mul_by_one_is_the_pattern() {
    let base = Pattern::base();
    assert_eq!(base.mul(1), base);
    let other = Pattern::new(vec![vec![R, C], vec![V, R], vec![C, C]]).unwrap();
    assert_eq!(other.mul(1), other);
}

#[test]
fn mul_turns_every_cell_into_a_block() {
    let small = Pattern::new(vec![vec![R, C], vec![V, R], vec![C, V]]).unwrap();
    let big = small.mul(3);
    assert_eq!(big.width(), 6);
    assert_eq!(big.height(), 9);
    for y in 0..3 {
        for x in 0..2 {
            for dy in 0..3 {
                for dx in 0..3 {
                    assert_eq!(big.part(3 * x + dx, 3 * y + dy), small.part(x, y));
                }
            }
        }
    }
    assert_eq!(
        rows(&Pattern::new(vec![vec![R, C]]).unwrap().mul(2)),
        vec![vec![R, R, C, C], vec![R, R, C, C]]
    );
}

#[test]
fn mul_of_the_base_glyph_keeps_every_part() {
    let big = Pattern::base().mul(4);
    assert_eq!(big.width(), 20);
    assert_eq!(big.height(), 28);
    assert!(big.has_every_part());
    assert_eq!(big.part(8, 8), V);
    assert_eq!(big.part(15, 11), V);
    assert_eq!(big.part(16, 8), R);
    assert_eq!(big.part(0, 8), C);
}

#[test]
fn has_every_part_finds_what_is_missing() {
    assert!(!Pattern::new(vec![vec![R, C]]).unwrap().has_every_part());
    assert!(!Pattern::new(vec![vec![V, C], vec![C, V]]).unwrap().has_every_part());
    assert!(!Pattern::new(vec![vec![R]]).unwrap().has_every_part());
    assert!(Pattern::new(vec![vec![R, C], vec![C, V]]).unwrap().has_every_part());
    assert!(Pattern::new(vec![vec![V], vec![C], vec![R]]).unwrap().has_every_part());
}
