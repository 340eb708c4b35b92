use hashlife::node::MAX_DEPTH;
use hashlife::{steps_to_min_depth, Block, Engine, Node, Pos, Quad, Rect};
use std::rc::Rc;

fn pattern(e: &mut Engine, depth: u8, cells: &[(i64, i64)]) -> Node {
    let mut n = Node::empty(e, depth);
    for &(x, y) in cells {
        n = n.set(e, Pos::new(x, y), true);
    }
    n
}

fn glider(e: &mut Engine) -> Node {
    pattern(e, 2, &[(1, 0), (2, 1), (0, 2), (1, 2), (2, 2)])
}

fn blinker(e: &mut Engine) -> Node {
    pattern(e, 1, &[(-1, 0), (0, 0), (1, 0)])
}

fn live_cells(n: &Node, radius: i64) -> Vec<(i64, i64)> {
    let mut out = Vec::new();
    for y in -radius..radius {
        for x in -radius..radius {
            if n.get(Pos::new(x, y)) {
                out.push((x, y));
            }
        }
    }
    out
}

#[test]
fn interner_identity() {
    let mut e = Engine::new();
    let b = Block::from_rows(0x18_24_42_81_81_42_24_18);
    let z = Block::empty();
    let a1 = Node::new_leaf(&mut e, Quad { nw: b, ne: z, sw: z, se: b });
    let a2 = Node::new_leaf(&mut e, Quad { nw: b, ne: z, sw: z, se: b });
    assert!(Rc::ptr_eq(&a1.0, &a2.0));
    let p1 = Node::new_inner(&mut e, Quad { nw: a1.clone(), ne: a2.clone(), sw: a1.clone(), se: a2.clone() });
    let p2 = Node::new_inner(&mut e, Quad { nw: a2.clone(), ne: a1.clone(), sw: a2, se: a1 });
    assert!(Rc::ptr_eq(&p1.0, &p2.0));
    let g1 = glider(&mut e);
    let g2 = glider(&mut e);
    assert!(Rc::ptr_eq(&g1.0, &g2.0));
}

#[test]
fn empty_step_stays_empty() {
    let mut e = Engine::new();
    let empty = Node::empty(&e, 10);
    let stepped = empty.step(&mut e, 1_000_000_000);
    assert!(stepped.is_empty());
    assert_eq!(stepped.center_at_depth(&mut e, 10), empty);
    assert_eq!(empty.step(&mut e, 0), empty);
}

#[test]
fn empty_or_is_centered_other() {
    let mut e = Engine::new();
    let x = glider(&mut e);
    let small = Node::empty(&e, 0);
    assert_eq!(small.or(&mut e, &x), x);
    let big = Node::empty(&e, 4);
    let want = x.center_at_depth(&mut e, 4);
    assert_eq!(big.or(&mut e, &x), want);
    assert_eq!(x.xor(&mut e, &x).population(), 0);
}

#[test]
fn population_matches_sweep() {
    let mut e = Engine::new();
    let cells = [(-9, -3), (4, 4), (7, -8), (-1, -1), (0, 0), (12, 13), (-16, 15), (30, -31)];
    for depth in 0..=2u8 {
        let n = pattern(&mut e, depth, &cells);
        let r = n.half_width();
        assert_eq!(live_cells(&n, r).len() as u64, n.population());
    }
    let mut n = pattern(&mut e, 0, &[(0, 0), (1, 1), (-3, 2)]);
    for _ in 0..4 {
        n = Node::new_inner(&mut e, Quad { nw: n.clone(), ne: n.clone(), sw: n.clone(), se: n });
        let r = n.half_width();
        assert_eq!(live_cells(&n, r).len() as u64, n.population());
    }
}

#[test]
fn step_depth_formula() {
    let mut e = Engine::new();
    let n = glider(&mut e);
    for k in [1u64, 3, 8, 9, 16, 17, 100, 1000] {
        let min = steps_to_min_depth(k);
        let want = n.unbufferd_depth(min - 1) + 1;
        assert_eq!(n.step(&mut e, k).depth(), want, "k={k}");
    }
}

#[test]
fn step_additivity() {
    let mut e = Engine::new();
    let n = glider(&mut e);
    for (a, b) in [(1u64, 1u64), (2, 3), (4, 4), (5, 11), (8, 9)] {
        let two = n.step(&mut e, a).step(&mut e, b);
        let one = n.step(&mut e, a + b);
        let d = two.depth().max(one.depth());
        let lhs = two.center_at_depth(&mut e, d);
        let rhs = one.center_at_depth(&mut e, d);
        assert_eq!(lhs, rhs, "a={a} b={b}");
    }
}

#[test]
fn symmetry_conjugation() {
    let mut e = Engine::new();
    let n = glider(&mut e);
    for k in [1u64, 2, 5] {
        let stepped = n.step(&mut e, k);
        let pairs: [(Node, Node); 5] = [
            (stepped.flip_h(&mut e), n.flip_h(&mut e).step(&mut e, k)),
            (stepped.flip_v(&mut e), n.flip_v(&mut e).step(&mut e, k)),
            (stepped.rotate_cw(&mut e), n.rotate_cw(&mut e).step(&mut e, k)),
            (stepped.rotate_180(&mut e), n.rotate_180(&mut e).step(&mut e, k)),
            (stepped.rotate_ccw(&mut e), n.rotate_ccw(&mut e).step(&mut e, k)),
        ];
        for (i, (a, b)) in pairs.iter().enumerate() {
            let d = a.depth().max(b.depth());
            let a = a.center_at_depth(&mut e, d);
            let b = b.center_at_depth(&mut e, d);
            assert_eq!(a, b, "k={k} op={i}");
        }
    }
}

#[test]
fn codec_round_trip() {
    let mut e = Engine::new();
    let nodes = [glider(&mut e), blinker(&mut e), Node::empty(&e, 3)];
    for n in nodes {
        let text = n.write_to_bytes();
        let back = Node::read_from_bytes(&mut e, &text).expect("valid input");
        assert_eq!(back, n);
    }
}

#[test]
fn macrocell_glider_round_trip() {
    let mut e = Engine::new();
    let n = glider(&mut e);
    let text = n.write_to_string();
    let back = Node::read_from_string(&mut e, &text).expect("valid input");
    assert!(Rc::ptr_eq(&back.0, &n.0));
}

#[test]
fn offset_linearity() {
    let mut e = Engine::new();
    let n = glider(&mut e);
    let cells = live_cells(&n, 32);
    let zero = n.offset(&mut e, Pos::new(0, 0));
    assert_eq!(live_cells(&zero, 64), cells);
    for (a, b) in [((1, 2), (3, -4)), ((-5, 0), (0, 7)), ((17, -3), (-20, 9))] {
        let two = n.offset(&mut e, Pos::new(a.0, a.1)).offset(&mut e, Pos::new(b.0, b.1));
        let one = n.offset(&mut e, Pos::new(a.0 + b.0, a.1 + b.1));
        assert_eq!(live_cells(&two, 128), live_cells(&one, 128));
        let moved: Vec<(i64, i64)> = cells.iter().map(|&(x, y)| (x + a.0 + b.0, y + a.1 + b.1)).collect();
        let mut got = live_cells(&one, 128);
        got.sort();
        let mut want = moved;
        want.sort();
        assert_eq!(got, want);
    }
}

#[test]
fn clip_idempotence() {
    let mut e = Engine::new();
    let n = pattern(&mut e, 2, &[(-20, -20), (-3, 4), (0, 0), (5, 5), (10, -12), (25, 30)]);
    for r in [
        Rect::new(Pos::new(-4, -4), Pos::new(6, 6)),
        Rect::new(Pos::new(-100, -100), Pos::new(0, 0)),
        Rect::new(Pos::new(3, 3), Pos::new(3, 3)),
        Rect::nothing(),
    ] {
        let once = n.clip(&mut e, r);
        let twice = once.clip(&mut e, r);
        assert_eq!(once, twice);
        let cleared = n.clear(&mut e, r).clip(&mut e, r);
        assert!(cleared.is_empty());
        assert_eq!(cleared, Node::empty(&e, n.depth()));
    }
}

#[test]
fn blinker_period() {
    let mut e = Engine::new();
    let z = Block::empty();
    let horizontal = Node::new_leaf(&mut e, Quad { nw: Block::from_rows(0x00_00_00_38_00_00_00_00), ne: z, sw: z, se: z });
    let vertical = Node::new_leaf(&mut e, Quad { nw: Block::from_rows(0x00_00_10_10_10_00_00_00), ne: z, sw: z, se: z });
    let one = horizontal.step(&mut e, 1).center_at_depth(&mut e, 0);
    assert_eq!(one, vertical);
    let two = horizontal.step(&mut e, 2).center_at_depth(&mut e, 0);
    assert_eq!(two, horizontal);
}

#[test]
fn pentadecathlon_period() {
    let mut e = Engine::new();
    let rows = ["oooooooo", "o.oooo.o", "oooooooo"];
    let mut cells = Vec::new();
    for (dy, row) in rows.iter().enumerate() {
        for (dx, ch) in row.chars().enumerate() {
            if ch == 'o' {
                cells.push((dx as i64 - 4, dy as i64 - 1));
            }
        }
    }
    let n = pattern(&mut e, 2, &cells);
    let back = n.step(&mut e, 15).center_at_depth(&mut e, 2);
    assert_eq!(back, n);
    for k in 1..15 {
        let other = n.step(&mut e, k).center_at_depth(&mut e, 2);
        assert_ne!(other, n, "k={k}");
    }
}

#[test]
fn glider_moves_one_cell_per_cycle() {
    let mut e = Engine::new();
    let n = glider(&mut e);
    let later = n.step(&mut e, 4);
    let before = live_cells(&n, 32);
    let after = live_cells(&later, 64);
    let moved: Vec<(i64, i64)> = before.iter().map(|&(x, y)| (x + 1, y + 1)).collect();
    assert_eq!(after, moved);
    let (p0, a) = n.offset_norm(&mut e);
    let (p1, b) = later.offset_norm(&mut e);
    let mut from_a: Vec<(i64, i64)> = live_cells(&a, 64).iter().map(|&(x, y)| (x + p0.x, y + p0.y)).collect();
    from_a.sort();
    let mut want = before.clone();
    want.sort();
    assert_eq!(from_a, want);
    let mut from_b: Vec<(i64, i64)> = live_cells(&b, 64).iter().map(|&(x, y)| (x + p1.x, y + p1.y)).collect();
    from_b.sort();
    let mut want = after.clone();
    want.sort();
    assert_eq!(from_b, want);
}

#[test]
fn macrocell_errors() {
    let mut e = Engine::new();
    let err = Node::read_from_bytes(&mut e, b"[M3]\n").unwrap_err();
    assert_eq!(err.kind(), hashlife::mc_format::MacrocellErrorKind::InvalidHeader);
    let err = Node::read_from_bytes(&mut e, b"[M2]\n4 1 0 0 0\n").unwrap_err();
    assert_eq!(err.hint_code(), hashlife::mc_format::MacrocellErrorHint::InvalidForwardRef);
    assert_eq!(err.line(), 1);
    assert_eq!(err.column(), 2);
    let err = Node::read_from_bytes(&mut e, b"[M2]\n*$*********$\n").unwrap_err();
    assert_eq!(err.hint_code(), hashlife::mc_format::MacrocellErrorHint::TooManyBlockBits);
    let err = Node::read_from_bytes(&mut e, b"[M2]\n$$$$$$$$$\n").unwrap_err();
    assert_eq!(err.hint_code(), hashlife::mc_format::MacrocellErrorHint::TooManyBlockRows);
    let err = Node::read_from_bytes(&mut e, b"[M2]\n3 0 0 0 0\n").unwrap_err();
    assert_eq!(err.hint_code(), hashlife::mc_format::MacrocellErrorHint::InvalidTwoStateDepth);
    let err = Node::read_from_bytes(&mut e, b"[M2]\n99 0 0 0 0\n").unwrap_err();
    assert_eq!(err.hint_code(), hashlife::mc_format::MacrocellErrorHint::SizeTooLarge);
    let err = Node::read_from_bytes(&mut e, b"[M2]\n*$\n5 1 0 0 0\n").unwrap_err();
    assert_eq!(err.hint_code(), hashlife::mc_format::MacrocellErrorHint::InvalidRefDepth);
    let err = Node::read_from_bytes(&mut e, b"[M2]\n*$ *$\n").unwrap_err();
    assert_eq!(err.hint_code(), hashlife::mc_format::MacrocellErrorHint::InvalidBlockAfterBlock);
    let err = Node::read_from_bytes(&mut e, b"[M2]\n*$ 4\n").unwrap_err();
    assert_eq!(err.hint_code(), hashlife::mc_format::MacrocellErrorHint::InvalidNumberAfterBlock);
    let err = Node::read_from_bytes(&mut e, b"[M2]\n4 0 0 0 *$\n").unwrap_err();
    assert_eq!(err.hint_code(), hashlife::mc_format::MacrocellErrorHint::InvalidBlockAfterNumber);
    let err = Node::read_from_bytes(&mut e, b"[M2]\n4 0 0 0 0 0\n").unwrap_err();
    assert_eq!(err.hint_code(), hashlife::mc_format::MacrocellErrorHint::InvalidNumberAfterNumber);
    let err = Node::read_from_bytes(&mut e, b"[M2]\n4 0 0\n").unwrap_err();
    assert_eq!(err.hint_code(), hashlife::mc_format::MacrocellErrorHint::InvalidEolAfterNumber);
    assert_eq!(err.kind(), hashlife::mc_format::MacrocellErrorKind::InvalidContent);
    let err = Node::read_from_bytes(&mut e, b"[M2]\n4 0 0 0 x\n").unwrap_err();
    assert_eq!(err.hint_code(), hashlife::mc_format::MacrocellErrorHint::InvalidChar);
    assert_eq!(err.line_src(), &b"4 0 0 0 x".to_vec());
    assert!(!err.hint().is_empty());
}

#[test]
fn macrocell_body_shapes() {
    let mut e = Engine::new();
    let n = Node::read_from_bytes(&mut e, b"[M2] (metalife 1.0)\n#R B3/S23\n").unwrap();
    assert_eq!(n, Node::empty(&e, 0));
    let n = Node::read_from_bytes(&mut e, b"[M2]\r\n*$\r\n").unwrap();
    let b = Block::from_rows(0x80_00_00_00_00_00_00_00);
    let q = b.expand();
    assert_eq!(n, Node::new_leaf(&mut e, q));
}

#[test]
fn max_depth_limit() {
    let e = Engine::new();
    let top = Node::empty(&e, MAX_DEPTH);
    assert_eq!(top.width_log2(), 63);
    assert_eq!(top.width(), 1u64 << 63);
    assert_eq!(top.half_width(), 1i64 << 62);
}

#[test]
fn offset_zero_is_identity() {
    let mut e = Engine::new();
    let n = glider(&mut e);
    assert_eq!(n.offset(&mut e, Pos::new(0, 0)), n);
    let moved = n.offset(&mut e, Pos::new(3, -2));
    assert_eq!(moved.depth(), n.depth() + 1);
}

#[test]
fn empty_input_reads_empty_leaf() {
    let mut e = Engine::new();
    let n = Node::read_from_bytes(&mut e, b"").unwrap();
    assert_eq!(n, Node::empty(&e, 0));
    let err = Node::read_from_bytes(&mut e, b"[M").unwrap_err();
    assert_eq!(err.kind(), hashlife::mc_format::MacrocellErrorKind::InvalidHeader);
    assert_eq!((err.line(), err.column()), (0, 0));
    let err = Node::read_from_bytes(&mut e, b"[M2]\r\n\r\n4 0 0 0 y\n").unwrap_err();
    assert_eq!((err.line(), err.column()), (2, 8));
    assert_eq!(err.line_src(), &b"4 0 0 0 y".to_vec());
}

#[test]
fn clip_edge_cases() {
    let mut e = Engine::new();
    let n = glider(&mut e);
    let far = Rect::new(Pos::new(1000, 1000), Pos::new(2000, 2000));
    assert_eq!(n.clip(&mut e, far), Node::empty(&e, n.depth()));
    assert_eq!(n.clear(&mut e, far), n);
    let all = Rect::new(Pos::new(-1000, -1000), Pos::new(1000, 1000));
    assert_eq!(n.clip(&mut e, all), n);
    assert_eq!(n.clear(&mut e, all), Node::empty(&e, n.depth()));
}
