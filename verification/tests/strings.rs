use quadratic_core::formulas::functions::string::{
    ceil_char_boundary, clamp_i64_minus_1_to_usize, clamp_i64_to_usize, clean, concatenate, exact,
    floor_char_boundary, left, leftb, len, lenb, lower, proper, right, rightb, unichar, unicode,
    upper,
};
use quadratic_core::values::{RunErrorMsg, Span, Spanned};

fn count(n: i64) -> Option<Spanned<i64>> {
    Some(Spanned {
        span: Span { start: 0, end: 1 },
        inner: n,
    })
}

#[test]
fn test_formula_concat() {
    let parts = vec![
        "Hello, ".to_string(),
        "14000605".to_string(),
        " worlds!".to_string(),
    ];
    assert_eq!("Hello, 14000605 worlds!".to_string(), concatenate(&parts));
    assert_eq!("".to_string(), concatenate(&vec![]));
}

#[test]
fn test_formula_left_right() {
    for (s, n, expected_output) in [
        ("Hello, world!", None, "H"),
        ("Hello, world!", count(0), ""),
        ("Hello, world!", count(6), "Hello,"),
        ("Hello, world!", count(99), "Hello, world!"),
        ("抱", count(6), "抱"),
        ("抱歉，我不懂普通话", count(6), "抱歉，我不懂"),
    ] {
        assert_eq!(expected_output, left(s, n).unwrap());
    }
    for (s, n, expected_output) in [
        ("Hello, world!", None, "H"),
        ("Hello, world!", count(0), ""),
        ("Hello, world!", count(6), "Hello,"),
        ("Hello, world!", count(99), "Hello, world!"),
        ("抱歉，我不懂普通话", None, ""),
        ("抱歉，我不懂普通话", count(6), "抱歉"),
        ("抱歉，我不懂普通话", count(8), "抱歉"),
    ] {
        assert_eq!(expected_output, leftb(s, n).unwrap());
    }
    for (s, n, expected_output) in [
        ("Hello, world!", count(6), "world!"),
        ("Hello, world!", count(0), ""),
        ("Hello, world!", None, "!"),
        ("Hello, world!", count(99), "Hello, world!"),
        ("抱歉，我不懂普通话", None, "话"),
        ("抱歉，我不懂普通话", count(6), "我不懂普通话"),
    ] {
        assert_eq!(expected_output, right(s, n).unwrap());
    }
    for (s, n, expected_output) in [
        ("Hello, world!", None, "!"),
        ("Hello, world!", count(0), ""),
        ("Hello, world!", count(6), "world!"),
        ("Hello, world!", count(99), "Hello, world!"),
        ("抱歉，我不懂普通话", None, ""),
        ("抱歉，我不懂普通话", count(6), "通话"),
        ("抱歉，我不懂普通话", count(7), "通话"),
    ] {
        assert_eq!(expected_output, rightb(s, n).unwrap());
    }

    for n in [-1, -10] {
        assert_eq!(
            RunErrorMsg::InvalidArgument,
            left("Hello, world!", count(n)).unwrap_err().msg
        );
        assert_eq!(
            RunErrorMsg::InvalidArgument,
            leftb("Hello, world!", count(n)).unwrap_err().msg
        );
        assert_eq!(
            RunErrorMsg::InvalidArgument,
            right("Hello, world!", count(n)).unwrap_err().msg
        );
        assert_eq!(
            RunErrorMsg::InvalidArgument,
            rightb("Hello, world!", count(n)).unwrap_err().msg
        );
    }
}

#[test]
fn test_formula_len_and_lenb() {
    for (string, codepoints, bytes) in [
        ("", 0, 0),
        ("résumé", 6, 8),
        ("ȍ̶̭h̸̲͝ ̵͈̚ņ̶̾ő̶͖", 17, 32),
        ("ą̷̬͔̖̤̎̀͆̄̅̓̕͝", 14, 28),
        ("😂", 1, 4),
        ("ĩ", 1, 2),
        ("👨‍🚀", 3, 11),
        ("👍🏿", 2, 8),
    ] {
        assert_eq!(codepoints, len(string));
        assert_eq!(bytes, lenb(string));
    }
    assert_eq!(2, len("aa"));
    assert_eq!(3, len("bbb"));
    assert_eq!(1, len("c"));
    assert_eq!(4, lenb("dddd"));
}

#[test]
fn test_formula_code() {
    let span = Span { start: 3, end: 9 };
    assert_eq!(65, unicode(span, "ABC").unwrap());
    assert_eq!(97, unicode(span, "a").unwrap());
    assert_eq!(65, unicode(span, "A").unwrap());
    let error = unicode(span, "").unwrap_err();
    assert_eq!(RunErrorMsg::InvalidArgument, error.msg);
    assert_eq!(Some(span), error.span);
}

#[test]
fn test_formula_char() {
    let span = Span { start: 0, end: 4 };
    assert_eq!('A', unichar(span, 65).unwrap());
    assert_eq!('a', unichar(span, 97).unwrap());
    assert_eq!('F', unichar(span, 65 + 5).unwrap());
    assert_eq!(
        RunErrorMsg::InvalidArgument,
        unichar(span, 0).unwrap_err().msg
    );
    assert_eq!(
        RunErrorMsg::InvalidArgument,
        unichar(span, 1 << 24).unwrap_err().msg
    );
    assert_eq!(
        RunErrorMsg::InvalidArgument,
        unichar(span, 0xD800).unwrap_err().msg
    );
}

#[test]
fn test_formula_clean() {
    assert_eq!("  A BC", clean("  A\u{0} \u{A}\nB\u{1C}C\t"));
}

#[test]
fn test_formula_casing() {
    let odysseus = "ὈΔΥΣΣΕΎΣ is my FAVORITE character!";
    assert_eq!("ὀδυσσεύς is my favorite character!", lower(odysseus));
    assert_eq!("ὈΔΥΣΣΕΎΣ IS MY FAVORITE CHARACTER!", upper(odysseus));
    assert_eq!("Ὀδυσσεύς Is My Favorite Character!", proper(odysseus));

    let goodbye = "tschüß, my friend";
    assert_eq!(goodbye, lower(goodbye));
    assert_eq!("TSCHÜSS, MY FRIEND", upper(goodbye));
    assert_eq!("Tschüß, My Friend", proper(goodbye));

    assert_eq!("σ", lower("Σ"));
    assert_eq!("ǆa", lower("ǄA"));
    assert_eq!("ǄA", upper("ǆa"));
    assert_eq!("ǅa", proper("ǆA"));
}

#[test]
fn test_formula_exact() {
    assert!(!exact("Abc", "abc"));
    assert!(exact("abc", "abc"));
    assert!(!exact("abc", "def"));
}

#[test]
fn char_boundaries_round_to_whole_characters() {
    let s = "抱歉";
    assert_eq!(0, floor_char_boundary(s, 0));
    assert_eq!(0, floor_char_boundary(s, 2));
    assert_eq!(3, floor_char_boundary(s, 3));
    assert_eq!(3, floor_char_boundary(s, 5));
    assert_eq!(6, floor_char_boundary(s, 6));
    assert_eq!(6, floor_char_boundary(s, 60));
    assert_eq!(0, ceil_char_boundary(s, 0));
    assert_eq!(3, ceil_char_boundary(s, 1));
    assert_eq!(3, ceil_char_boundary(s, 3));
    assert_eq!(6, ceil_char_boundary(s, 4));
    assert_eq!(6, ceil_char_boundary(s, 60));
}

#[test]
fn counts_are_clamped() {
    let span = Span { start: 1, end: 2 };
    assert_eq!(Ok(5), clamp_i64_to_usize(Spanned { span, inner: 5 }));
    assert_eq!(Ok(0), clamp_i64_to_usize(Spanned { span, inner: 0 }));
    let error = clamp_i64_to_usize(Spanned { span, inner: -1 }).unwrap_err();
    assert_eq!(RunErrorMsg::InvalidArgument, error.msg);
    assert_eq!(Some(span), error.span);
    assert_eq!(Ok(4), clamp_i64_minus_1_to_usize(Spanned { span, inner: 5 }));
    assert_eq!(Ok(0), clamp_i64_minus_1_to_usize(Spanned { span, inner: 1 }));
    assert!(clamp_i64_minus_1_to_usize(Spanned { span, inner: 0 }).is_err());
    assert!(clamp_i64_minus_1_to_usize(Spanned {
        span,
        inner: i64::MIN
    })
    .is_err());
}
