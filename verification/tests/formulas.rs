use quadratic_core::formulas::cell_ref::{CellRef, CellRefCoord, RangeRef};
use quadratic_core::formulas::ctx::Ctx;
use quadratic_core::formulas::functions::call::{call_on_cells, eval, flatten};
use quadratic_core::formulas::functions::string::{
    array_to_text, get_functions, lookup, StringFunction,
};
use quadratic_core::grid::Grid;
use quadratic_core::pos::{Pos, SheetPos};
use quadratic_core::rect::{Rect, SheetRect};
use quadratic_core::values::array::{Array, ArraySize, Value};
use quadratic_core::values::decimal::Decimal;
use quadratic_core::values::isblank::IsBlank;
use quadratic_core::values::{Axis, CellValue, RunError, RunErrorMsg, Span, Spanned};

const SPAN: Span = Span { start: 0, end: 9 };

fn text(s: &str) -> CellValue {
    CellValue::Text(s.to_string())
}

fn number(s: &str) -> CellValue {
    CellValue::Number(Decimal::parse(s).unwrap())
}

fn arg(i: u32, value: Value) -> Spanned<Value> {
    Spanned {
        span: Span {
            start: 10 * i,
            end: 10 * i + 5,
        },
        inner: value,
    }
}

fn single(v: CellValue) -> Value {
    Value::Single(v)
}

fn array(w: u32, h: u32, cells: Vec<CellValue>) -> Value {
    Value::Array(Array::new_row_major(ArraySize { w, h }, cells).unwrap())
}

fn call(grid: &Grid, name: &str, values: Vec<Value>) -> Result<Value, RunError> {
    let function = lookup(name).unwrap();
    let at = SheetPos {
        x: 0,
        y: 0,
        sheet_id: grid.sheets()[0].id,
    };
    let mut ctx = Ctx::new(grid, at);
    let operands = values
        .into_iter()
        .enumerate()
        .map(|(i, v)| arg(i as u32, v))
        .collect::<Vec<_>>();
    eval(function, &mut ctx, SPAN, &operands)
}

fn eval_to_string(grid: &Grid, name: &str, values: Vec<Value>) -> String {
    match call(grid, name, values).unwrap() {
        Value::Single(v) => v.to_display(),
        other => panic!("expected a single value, got {:?}", other),
    }
}

fn fruit_grid() -> Grid {
    let mut grid = Grid::new();
    let sheet = &mut grid.sheets_mut()[0];
    sheet.set_cell_value(Pos { x: 0, y: 0 }, text("Apple"));
    sheet.set_cell_value(Pos { x: 1, y: 0 }, text("banana"));
    sheet.set_cell_value(Pos { x: 0, y: 1 }, number("42"));
    sheet.set_cell_value(Pos { x: 1, y: 1 }, text("Hello, world!"));
    grid
}

fn fruit_range(grid: &Grid) -> Value {
    let sheet_id = grid.sheets()[0].id;
    let at = SheetPos {
        x: 5,
        y: 5,
        sheet_id,
    };
    let mut ctx = Ctx::new(grid, at);
    let rect = SheetRect::from_rect(Rect::new(0, 0, 1, 1), sheet_id);
    let range = ctx.get_cell_array(rect, SPAN).unwrap();
    assert_eq!(ctx.accessed_count(), 4);
    assert!(ctx.has_accessed(SheetRect::single_pos(Pos { x: 1, y: 1 }, sheet_id)));
    assert!(!ctx.has_accessed(rect));
    Value::Array(range.inner)
}

#[test]
fn test_formula_array_to_text() {
    let g = fruit_grid();
    let a = fruit_range(&g);
    assert_eq!(
        "Apple, banana, 42, Hello, world!",
        eval_to_string(&g, "ARRAYTOTEXT", vec![a.clone()]),
    );
    assert_eq!(
        "Apple, banana, 42, Hello, world!",
        eval_to_string(&g, "ARRAYTOTEXT", vec![a.clone(), single(number("0"))]),
    );
    assert_eq!(
        "{\"Apple\", \"banana\"; 42, \"Hello, world!\"}",
        eval_to_string(&g, "ARRAYTOTEXT", vec![a.clone(), single(number("1"))]),
    );
    assert_eq!(
        RunErrorMsg::InvalidArgument,
        call(&g, "ARRAYTOTEXT", vec![a.clone(), single(number("2"))])
            .unwrap_err()
            .msg,
    );
    // a blank format counts as left out
    assert_eq!(
        "Apple, banana, 42, Hello, world!",
        eval_to_string(&g, "ARRAYTOTEXT", vec![a, single(CellValue::Blank)]),
    );
}

#[test]
fn array_to_text_of_given_arrays() {
    let Value::Array(a) = array(
        3,
        2,
        vec![
            text("a\"b"),
            CellValue::Blank,
            CellValue::Logical(true),
            number("-1.50"),
            text(""),
            text("x"),
        ],
    ) else {
        panic!()
    };
    assert_eq!(
        array_to_text(&a, None).unwrap(),
        "a\"b, , TRUE, -1.50, , x"
    );
    let one = Some(Spanned {
        span: SPAN,
        inner: 1,
    });
    assert_eq!(
        array_to_text(&a, one).unwrap(),
        "{\"a\\\"b\", , TRUE; -1.50, \"\", \"x\"}"
    );
    assert_eq!(a.repr(), "{\"a\\\"b\", , TRUE; -1.50, \"\", \"x\"}");
    let single = Array::from_cell(text("only"));
    assert_eq!(single.repr(), "{\"only\"}");
    assert_eq!(single.to_display(), "only");
    let bad = Some(Spanned {
        span: SPAN,
        inner: -1,
    });
    assert_eq!(
        array_to_text(&a, bad),
        Err(RunErrorMsg::InvalidArgument.with_span(SPAN))
    );
}

#[test]
fn functions_are_found_by_name() {
    let all = get_functions();
    assert_eq!(all.len(), 18);
    assert_eq!(all[0], StringFunction::ArrayToText);
    assert_eq!(all[17], StringFunction::Exact);
    for f in all {
        assert_eq!(lookup(f.name()), Some(f));
    }
    assert_eq!(lookup("LEFTB"), Some(StringFunction::Leftb));
    assert_eq!(lookup("left"), None);
    assert_eq!(lookup(""), None);
    assert!(StringFunction::Left.accepts(1));
    assert!(StringFunction::Left.accepts(2));
    assert!(!StringFunction::Left.accepts(0));
    assert!(!StringFunction::Left.accepts(3));
    assert!(StringFunction::Concat.accepts(0));
    assert!(StringFunction::Concat.accepts(40));
    assert!(!StringFunction::Exact.accepts(1));
    assert!(!StringFunction::ArrayToText.is_cell_by_cell());
    assert!(StringFunction::Proper.is_cell_by_cell());
}

#[test]
fn functions_are_called_through_the_context() {
    let g = Grid::new();
    assert_eq!(
        "Hello, 14000605 worlds!",
        eval_to_string(
            &g,
            "CONCAT",
            vec![
                single(text("Hello, ")),
                single(number("14000605")),
                single(text(" worlds!"))
            ]
        )
    );
    assert_eq!(
        "abcTRUE",
        eval_to_string(
            &g,
            "CONCATENATE",
            vec![
                array(2, 1, vec![text("a"), text("b")]),
                Value::Tuple(vec![
                    Array::from_cell(text("c")),
                    Array::from_cell(CellValue::Logical(true))
                ]),
                single(CellValue::Blank),
            ]
        )
    );
    assert_eq!("", eval_to_string(&g, "CONCAT", vec![]));
    assert_eq!(
        "Hello,",
        eval_to_string(
            &g,
            "LEFT",
            vec![single(text("Hello, world!")), single(number("6"))]
        )
    );
    assert_eq!(
        "H",
        eval_to_string(&g, "LEFT", vec![single(text("Hello, world!"))])
    );
    assert_eq!(
        "通话",
        eval_to_string(
            &g,
            "RIGHTB",
            vec![single(text("抱歉，我不懂普通话")), single(text("6"))]
        )
    );
    assert_eq!(
        call(&g, "LEN", vec![single(text("😂"))]),
        Ok(single(number("1")))
    );
    assert_eq!(
        call(&g, "LENB", vec![single(text("😂"))]),
        Ok(single(number("4")))
    );
    assert_eq!(
        call(&g, "UNICODE", vec![single(text("Alpha"))]),
        Ok(single(number("65")))
    );
    assert_eq!("a", eval_to_string(&g, "CHAR", vec![single(number("97"))]));
    assert_eq!(
        call(
            &g,
            "EXACT",
            vec![single(text("Abc")), single(text("abc"))]
        ),
        Ok(single(CellValue::Logical(false)))
    );
    assert_eq!(
        "Ὀδυσσεύς Is My Favorite Character!",
        eval_to_string(
            &g,
            "PROPER",
            vec![single(text("ὈΔΥΣΣΕΎΣ is my FAVORITE character!"))]
        )
    );
}

#[test]
fn a_function_is_applied_cell_by_cell() {
    let g = Grid::new();
    // a row of texts against a column of counts
    let r = call(
        &g,
        "LEFT",
        vec![
            array(3, 1, vec![text("abc"), text("de"), text("fghi")]),
            array(1, 2, vec![number("1"), number("3")]),
        ],
    )
    .unwrap();
    assert_eq!(
        r,
        array(
            3,
            2,
            vec![
                text("a"),
                text("d"),
                text("f"),
                text("abc"),
                text("de"),
                text("fgh")
            ]
        )
    );
    // a shorter operand is repeated
    let r = call(
        &g,
        "EXACT",
        vec![
            array(4, 1, vec![text("a"), text("b"), text("a"), text("b")]),
            array(2, 1, vec![text("a"), text("b")]),
        ],
    )
    .unwrap();
    assert_eq!(r, array(4, 1, vec![CellValue::Logical(true); 4]));
    // lengths that do not divide one another meet at their least common multiple
    let r = call(
        &g,
        "EXACT",
        vec![
            array(2, 1, vec![text("a"), text("b")]),
            array(3, 1, vec![text("a"), text("b"), text("a")]),
        ],
    )
    .unwrap();
    assert_eq!(r.size(), ArraySize { w: 6, h: 1 });
    assert_eq!(
        r.get(2, 0).unwrap(),
        &CellValue::Logical(true),
        "a against a"
    );
    assert_eq!(r.get(1, 0).unwrap(), &CellValue::Logical(true));
    assert_eq!(r.get(3, 0).unwrap(), &CellValue::Logical(false));
    // an array of one cell gives a single value
    let r = call(&g, "UPPER", vec![array(1, 1, vec![text("x")])]).unwrap();
    assert_eq!(r, single(text("X")));
}

#[test]
fn errors_end_the_evaluation() {
    let g = Grid::new();
    let failed = CellValue::Error(Box::new(RunErrorMsg::CircularReference.with_span(Span {
        start: 3,
        end: 4,
    })));
    // an error in a cell is the error of the call
    assert_eq!(
        call(
            &g,
            "LOWER",
            vec![array(2, 1, vec![text("A"), failed.clone()])]
        ),
        Err(RunErrorMsg::CircularReference.with_span(Span { start: 3, end: 4 }))
    );
    assert_eq!(
        call(&g, "CONCAT", vec![single(text("a")), single(failed)]),
        Err(RunErrorMsg::CircularReference.with_span(Span { start: 3, end: 4 }))
    );
    // the first failing cell, row by row, decides
    assert_eq!(
        call(
            &g,
            "LEFT",
            vec![
                single(text("abc")),
                array(2, 2, vec![number("1"), number("-1"), text("x"), number("2")])
            ]
        ),
        Err(RunErrorMsg::InvalidArgument.with_span(Span { start: 10, end: 15 }))
    );
    assert_eq!(
        call(&g, "UNICODE", vec![single(text(""))]),
        Err(RunErrorMsg::InvalidArgument.with_span(SPAN))
    );
    assert_eq!(
        call(&g, "CHAR", vec![single(number("0"))]),
        Err(RunErrorMsg::InvalidArgument.with_span(SPAN))
    );
    assert_eq!(
        call(&g, "UNICHAR", vec![single(number("55296"))]),
        Err(RunErrorMsg::InvalidArgument.with_span(SPAN))
    );
    assert_eq!(
        call(&g, "UNICHAR", vec![single(number("4294967296"))]),
        Err(RunErrorMsg::InvalidArgument.with_span(SPAN))
    );
    for (name, values) in [
        ("LEN", vec![]),
        ("LEN", vec![single(text("a")), single(text("b"))]),
        ("EXACT", vec![single(text("a"))]),
        ("ARRAYTOTEXT", vec![]),
        (
            "LEFT",
            vec![single(text("a")), single(number("1")), single(number("1"))],
        ),
    ] {
        assert_eq!(
            call(&g, name, values),
            Err(RunErrorMsg::BadArgumentCount.with_span(SPAN)),
            "{}",
            name
        );
    }
    // kinds that cannot be taken for a number
    assert_eq!(
        call(
            &g,
            "LEFT",
            vec![single(text("abc")), single(CellValue::Logical(true))]
        ),
        Err(RunError {
            span: Some(Span { start: 10, end: 15 }),
            msg: RunErrorMsg::Expected {
                expected: "number".to_string(),
                got: "boolean".to_string()
            }
        })
    );
    assert_eq!(
        call(
            &g,
            "LEFT",
            vec![single(text("abc")), single(number("1.5"))]
        ),
        Err(RunError {
            span: Some(Span { start: 10, end: 15 }),
            msg: RunErrorMsg::Expected {
                expected: "integer".to_string(),
                got: "number".to_string()
            }
        })
    );
    assert_eq!(
        call(
            &g,
            "ARRAYTOTEXT",
            vec![
                single(text("a")),
                array(2, 1, vec![number("1"), number("1")])
            ]
        ),
        Err(RunError {
            span: Some(Span { start: 10, end: 15 }),
            msg: RunErrorMsg::Expected {
                expected: "single value".to_string(),
                got: "array".to_string()
            }
        })
    );
    assert_eq!(
        call(
            &g,
            "ARRAYTOTEXT",
            vec![Value::Tuple(vec![Array::from_cell(text("a"))])]
        ),
        Err(RunError {
            span: Some(Span { start: 0, end: 5 }),
            msg: RunErrorMsg::Expected {
                expected: "array".to_string(),
                got: "tuple".to_string()
            }
        })
    );
    // a tuple cannot be applied cell by cell
    assert_eq!(
        call(
            &g,
            "LEN",
            vec![Value::Tuple(vec![Array::from_cell(text("a"))])]
        ),
        Err(RunError {
            span: Some(Span { start: 0, end: 5 }),
            msg: RunErrorMsg::Expected {
                expected: "array".to_string(),
                got: "tuple".to_string()
            }
        })
    );
}

#[test]
fn calls_on_single_cells() {
    let cell = |v: CellValue| Spanned {
        span: Span { start: 1, end: 2 },
        inner: v,
    };
    assert_eq!(
        call_on_cells(StringFunction::Clean, SPAN, &vec![cell(text("a\tb\nc d"))]),
        Ok(text("abc d"))
    );
    assert_eq!(
        call_on_cells(StringFunction::ArrayToText, SPAN, &vec![cell(text("a"))]),
        Ok(text("a"))
    );
    assert_eq!(
        call_on_cells(
            StringFunction::ArrayToText,
            SPAN,
            &vec![cell(text("a")), cell(number("1"))]
        ),
        Ok(text("{\"a\"}"))
    );
    assert_eq!(
        call_on_cells(
            StringFunction::Concat,
            SPAN,
            &vec![cell(text("a")), cell(number("1")), cell(CellValue::Blank)]
        ),
        Ok(text("a1"))
    );
    assert_eq!(
        call_on_cells(StringFunction::Lenb, SPAN, &vec![cell(CellValue::Blank)]),
        Ok(number("0"))
    );
    let flat = flatten(&vec![
        arg(0, single(text("a"))),
        arg(1, array(1, 2, vec![text("b"), text("c")])),
    ]);
    assert_eq!(flat.len(), 3);
    assert_eq!(flat[2].inner, text("c"));
    assert_eq!(flat[2].span, Span { start: 10, end: 15 });
}

#[test]
fn common_size_of_operands() {
    let operands = vec![
        arg(0, single(text("a"))),
        arg(1, array(2, 3, vec![CellValue::Blank; 6])),
        arg(2, array(4, 1, vec![CellValue::Blank; 4])),
    ];
    assert_eq!(
        Value::common_array_size(&operands),
        Ok(ArraySize { w: 4, h: 3 })
    );
    assert_eq!(Value::common_len(&operands, Axis::X), Ok(4));
    assert_eq!(Value::common_len(&operands, Axis::Y), Ok(3));
    assert_eq!(Value::common_array_size(&vec![]), Ok(ArraySize { w: 1, h: 1 }));
}

#[test]
fn blank_values() {
    assert!(CellValue::Blank.is_blank());
    assert!(!text("").is_blank());
    assert_eq!(CellValue::Blank.coerce_nonblank(), None);
    assert_eq!(text("a").coerce_nonblank(), Some(text("a")));
    let Value::Array(blank) = array(2, 1, vec![CellValue::Blank, CellValue::Blank]) else {
        panic!()
    };
    assert!(blank.is_blank());
    assert!(Value::Array(blank.clone()).is_blank());
    assert!(vec![blank.clone(), blank].is_blank());
    assert!(!array(2, 1, vec![CellValue::Blank, text("")]).is_blank());
    assert!(Value::Single(CellValue::Blank).is_blank());
}

#[test]
fn a_formula_that_reads_its_own_cell_is_circular() {
    let mut grid = Grid::new();
    let sheet_id = grid.sheets()[0].id;
    grid.sheets_mut()[0].set_cell_value(Pos { x: 3, y: 4 }, text("here"));
    grid.sheets_mut()[0].set_cell_value(Pos { x: 4, y: 4 }, text("there"));
    let at = SheetPos {
        x: 3,
        y: 4,
        sheet_id,
    };
    let mut ctx = Ctx::new(&grid, at);
    assert_eq!(
        ctx.get_cell(at, SPAN),
        Err(RunErrorMsg::CircularReference.with_span(SPAN))
    );
    let next = SheetPos {
        x: 4,
        y: 4,
        sheet_id,
    };
    assert_eq!(
        ctx.get_cell(next, SPAN),
        Ok(Spanned {
            span: SPAN,
            inner: text("there")
        })
    );
    assert_eq!(
        ctx.get_cell(
            SheetPos {
                x: 9,
                y: 9,
                sheet_id
            },
            SPAN
        )
        .unwrap()
        .inner,
        CellValue::Blank
    );
    // a range over the formula's own cell
    let over = SheetRect::from_rect(Rect::new(0, 0, 5, 5), sheet_id);
    assert_eq!(
        ctx.get_cell_array(over, SPAN).unwrap_err().msg,
        RunErrorMsg::CircularReference
    );
    // a sheet that is not there
    let lost = SheetPos {
        x: 0,
        y: 0,
        sheet_id: quadratic_core::grid::ids::SheetId { id: 5 },
    };
    assert_eq!(
        ctx.get_cell(lost, SPAN),
        Err(RunErrorMsg::BadCellReference.with_span(SPAN))
    );
}

#[test]
fn references_are_resolved_from_the_formula() {
    let mut grid = Grid::new();
    let sheet_id = grid.sheets()[0].id;
    grid.sheets_mut()[0].set_cell_value(Pos { x: 1, y: 1 }, text("b2"));
    let at = SheetPos {
        x: 3,
        y: 4,
        sheet_id,
    };
    let ctx = Ctx::new(&grid, at);
    let relative = CellRef {
        sheet: None,
        x: CellRefCoord::Relative(-2),
        y: CellRefCoord::Absolute(1),
    };
    assert_eq!(
        ctx.resolve_ref(&relative, SPAN).unwrap().inner,
        SheetPos {
            x: 1,
            y: 1,
            sheet_id
        }
    );
    let named = CellRef {
        sheet: Some("Sheet 1".to_string()),
        x: CellRefCoord::Absolute(0),
        y: CellRefCoord::Absolute(0),
    };
    assert_eq!(ctx.resolve_ref(&named, SPAN).unwrap().inner.sheet_id, sheet_id);
    let missing = CellRef {
        sheet: Some("Nowhere".to_string()),
        x: CellRefCoord::Absolute(0),
        y: CellRefCoord::Absolute(0),
    };
    assert_eq!(
        ctx.resolve_ref(&missing, SPAN),
        Err(RunErrorMsg::BadCellReference.with_span(SPAN))
    );
    let beyond = CellRef {
        sheet: None,
        x: CellRefCoord::Relative(i64::MAX),
        y: CellRefCoord::Absolute(0),
    };
    assert_eq!(
        ctx.resolve_ref(&beyond, SPAN),
        Err(RunErrorMsg::BadCellReference.with_span(SPAN))
    );
    let range = RangeRef::CellRange {
        start: CellRef {
            sheet: None,
            x: CellRefCoord::Absolute(2),
            y: CellRefCoord::Absolute(5),
        },
        end: CellRef {
            sheet: None,
            x: CellRefCoord::Absolute(0),
            y: CellRefCoord::Absolute(1),
        },
    };
    assert_eq!(
        ctx.resolve_range_ref(&range, SPAN).unwrap().inner,
        SheetRect::from_rect(Rect::new(0, 1, 2, 5), sheet_id)
    );
    let rows = RangeRef::RowRange {
        start: CellRefCoord::Absolute(0),
        end: CellRefCoord::Absolute(1),
    };
    assert!(matches!(
        ctx.resolve_range_ref(&rows, SPAN).unwrap_err().msg,
        RunErrorMsg::Unimplemented(_)
    ));
}

#[test]
fn a_range_that_is_too_large_is_refused() {
    let grid = Grid::new();
    let sheet_id = grid.sheets()[0].id;
    let at = SheetPos {
        x: -5,
        y: -5,
        sheet_id,
    };
    let mut ctx = Ctx::new(&grid, at);
    let large = SheetRect::from_rect(Rect::new(0, 0, 1000, 999), sheet_id);
    assert_eq!(
        ctx.get_cell_array(large, SPAN).unwrap_err().msg,
        RunErrorMsg::ArrayTooBig
    );
    let huge = SheetRect::from_rect(Rect::new(i64::MIN + 9, 0, i64::MAX, 0), sheet_id);
    assert_eq!(
        ctx.get_cell_array(huge, SPAN).unwrap_err().msg,
        RunErrorMsg::ArrayTooBig
    );
    let fits = SheetRect::from_rect(Rect::new(0, 0, 999, 999), sheet_id);
    let cells = ctx.get_cell_array(fits, SPAN).unwrap();
    assert_eq!(
        cells.inner.size(),
        ArraySize {
            w: 1000,
            h: 1000
        }
    );
    assert_eq!(ctx.accessed_count(), 1_000_000);
    assert!(ctx.has_accessed(SheetRect::single_pos(
        Pos { x: 999, y: 999 },
        sheet_id
    )));
}
