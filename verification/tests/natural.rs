use local_gallery::natural::{natural_precedence, Precedence};
use local_gallery::text::chars_of;

fn order(a: &str, b: &str) -> Precedence {
    natural_precedence(&chars_of(a), &chars_of(b))
}

#[test]
fn numbers_are_compared_as_integers() {
    assert_eq!(order("img2", "img10"), Precedence::Before);
    assert_eq!(order("img10", "img2"), Precedence::After);
    assert_eq!(order("img9", "img10"), Precedence::Before);
    assert_eq!(order("a100b", "a99b"), Precedence::After);
}

#[test]
fn equal_texts_stand_at_the_same_place() {
    assert_eq!(order("", ""), Precedence::Same);
    assert_eq!(order("img10", "img10"), Precedence::Same);
    assert_eq!(order("/photos/2021", "/photos/2021"), Precedence::Same);
}

#[test]
fn a_text_that_ends_first_comes_first() {
    assert_eq!(order("", "a"), Precedence::Before);
    assert_eq!(order("img", "img1"), Precedence::Before);
    assert_eq!(order("img1", "img"), Precedence::After);
}

#[test]
fn leading_zeros_break_ties_by_length() {
    assert_eq!(order("img2", "img02"), Precedence::Before);
    assert_eq!(order("img02", "img2"), Precedence::After);
    assert_eq!(order("img002", "img10"), Precedence::Before);
    assert_eq!(order("img0", "img00"), Precedence::Before);
}

#[test]
fn what_follows_equal_numbers_decides() {
    assert_eq!(order("v2a", "v2b"), Precedence::Before);
    assert_eq!(order("v2.10", "v2.9"), Precedence::After);
    assert_eq!(order("2021-03", "2021-11"), Precedence::Before);
}

#[test]
fn other_characters_are_compared_by_code_point() {
    assert_eq!(order("abc", "abd"), Precedence::Before);
    assert_eq!(order("B", "a"), Precedence::Before);
    assert_eq!(order("a1", "ab"), Precedence::Before);
    assert_eq!(order("a-", "a1"), Precedence::Before);
}

#[test]
fn long_numbers_do_not_overflow() {
    assert_eq!(
        order("n99999999999999999999999998", "n99999999999999999999999999"),
        Precedence::Before
    );
    assert_eq!(
        order("n100000000000000000000000000", "n99999999999999999999999999"),
        Precedence::After
    );
}

#[test]
fn looking_from_the_other_side_turns_the_placement_round() {
    let texts = ["", "a", "a1", "a01", "a2", "a10", "b", "10", "9", "09", "a1b", "a1c"];
    for x in texts {
        for y in texts {
            let forth = order(x, y);
            let back = order(y, x);
            let turned = match forth {
                Precedence::Before => Precedence::After,
                Precedence::Same => Precedence::Same,
                Precedence::After => Precedence::Before,
            };
            assert_eq!(back, turned, "{:?} and {:?}", x, y);
            assert_eq!(forth == Precedence::Same, x == y, "{:?} and {:?}", x, y);
        }
    }
}

#[test]
fn the_order_is_transitive() {
    let texts = ["", "a", "a1", "a01", "a2", "a10", "b", "10", "9", "09", "a1b", "a1c", "-", "z9"];
    for x in texts {
        for y in texts {
            for z in texts {
                if order(x, y) != Precedence::After && order(y, z) != Precedence::After {
                    assert_ne!(order(x, z), Precedence::After, "{:?} {:?} {:?}", x, y, z);
                }
            }
        }
    }
}
