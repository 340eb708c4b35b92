use hashlife::{steps_to_min_depth, Block, Engine, Node, Pos, Quad, Rect};

fn parse_block(text: &str) -> Block {
    let mut bits: u64 = 0;
    let mut rows = 0;
    for line in text.lines() {
        let line = line.trim();
        if line.is_empty() {
            continue;
        }
        assert_eq!(line.len(), 8);
        for ch in line.chars() {
            bits <<= 1;
            match ch {
                'o' => bits |= 1,
                '.' => {}
                _ => panic!("bad cell {ch}"),
            }
        }
        rows += 1;
    }
    assert_eq!(rows, 8);
    Block::from_rows(bits)
}

fn assert_block_step(input: Block, steps: u64, output: Block) {
    assert_eq!(input.expand().step_center(steps), output);
}

fn leaf(e: &mut Engine, nw: Block, ne: Block, sw: Block, se: Block) -> Node {
    Node::new_leaf(e, Quad { nw, ne, sw, se })
}

fn inner(e: &mut Engine, nw: Node, ne: Node, sw: Node, se: Node) -> Node {
    Node::new_inner(e, Quad { nw, ne, sw, se })
}

#[test]
fn leaf_center_at() {
    let mut e = Engine::new();
    let b1 = Block::from_rows(0x01_02_04_08_10_20_40_80);
    let b2 = Block::from_rows(0x80_40_20_10_08_04_02_01);
    let b3 = Block::from_rows(0x01_01_01_01_01_01_01_01);
    let b4 = Block::from_rows(0x80_80_80_80_80_80_80_80);
    let leaf0 = leaf(&mut e, b1, b2, b3, b4);
    assert_eq!(leaf0, leaf0.center_at_depth(&mut e, 0));
    let x1 = leaf0.expand(&mut e);
    assert_eq!(x1, leaf0.center_at_depth(&mut e, 1));
    let x2 = leaf0.expand(&mut e).expand(&mut e);
    assert_eq!(x2, leaf0.center_at_depth(&mut e, 2));
}

#[test]
fn node0_center_at() {
    let mut e = Engine::new();
    let b1 = Block::from_rows(0x01_02_04_08_10_20_40_80);
    let b2 = Block::from_rows(0x80_40_20_10_08_04_02_01);
    let b3 = Block::from_rows(0x01_01_01_01_01_01_01_01);
    let b4 = Block::from_rows(0x80_80_80_80_80_80_80_80);
    let l = leaf(&mut e, b1, b2, b3, b4);
    let node = inner(&mut e, l.clone(), l.clone(), l.clone(), l);
    let center = leaf(&mut e, b4, b3, b2, b1);
    assert_eq!(center, node.center_at_depth(&mut e, 0));
    assert_eq!(node, node.center_at_depth(&mut e, 1));
    let x = node.expand(&mut e);
    assert_eq!(x, node.center_at_depth(&mut e, 2));
}

#[test]
fn population_block() {
    let mut e = Engine::new();
    let z = Block::empty();
    let pop = |e: &mut Engine, b: Block| leaf(e, b, z, z, z).population();
    assert_eq!(0, pop(&mut e, Block::empty()));
    assert!(leaf(&mut e, Block::empty(), z, z, z).is_empty());
    assert_eq!(1, pop(&mut e, Block::from_rows(0x80_00_00_00_00_00_00_00)));
    assert!(!leaf(&mut e, Block::from_rows(0x80_00_00_00_00_00_00_00), z, z, z).is_empty());
    assert_eq!(8, pop(&mut e, Block::from_rows(0x00_00_00_00_00_00_ff_00)));
    assert!(!leaf(&mut e, Block::from_rows(0x00_00_00_00_00_00_ff_00), z, z, z).is_empty());
}

#[test]
fn node() {
    let mut e = Engine::new();
    assert_eq!(0, Node::empty(&e, 5).population());
    assert!(Node::empty(&e, 7).is_empty());

    let b1 = Block::from_rows(0x01_01_01_01_01_01_01_01);
    let b2 = Block::from_rows(0x80_40_20_10_08_04_02_01);
    let b3 = Block::from_rows(0xff_ee_dd_cc_bb_aa_99_88);
    let b4 = Block::empty();
    let mut n = leaf(&mut e, b1, b2, b3, b4);
    assert_eq!(56, n.population());
    let pops = [224, 896, 3584, 14336];
    for p in pops {
        n = inner(&mut e, n.clone(), n.clone(), n.clone(), n);
        assert_eq!(p, n.population());
    }
}

#[test]
fn corners() {
    let mut e = Engine::new();
    let node0 = leaf(
        &mut e,
        Block::from_rows(0x80_00_00_00_00_00_00_00),
        Block::from_rows(0x01_00_00_00_00_00_00_00),
        Block::from_rows(0x00_00_00_00_00_00_00_80),
        Block::from_rows(0x00_00_00_00_00_00_00_01),
    );
    let node1 = leaf(
        &mut e,
        Block::from_rows(0x00_00_00_00_08_00_00_00),
        Block::from_rows(0x00_00_00_00_10_00_00_00),
        Block::from_rows(0x00_00_00_08_00_00_00_00),
        Block::from_rows(0x00_00_00_10_00_00_00_00),
    );
    let node2 = leaf(
        &mut e,
        Block::from_rows(0x00_00_00_00_00_00_02_00),
        Block::from_rows(0x00_00_00_00_00_00_40_00),
        Block::from_rows(0x00_02_00_00_00_00_00_00),
        Block::from_rows(0x00_40_00_00_00_00_00_00),
    );
    let node3 = leaf(
        &mut e,
        Block::from_rows(0x00_00_00_00_00_00_00_01),
        Block::from_rows(0x00_00_00_00_00_00_00_80),
        Block::from_rows(0x01_00_00_00_00_00_00_00),
        Block::from_rows(0x80_00_00_00_00_00_00_00),
    );
    assert_eq!(node0.reduce_by(&mut e, 0), node0);
    assert_eq!(node0.reduce_by(&mut e, 1), node1);
    assert_eq!(node0.reduce_by(&mut e, 2), node2);
    assert_eq!(node0.reduce_by(&mut e, 3), node3);
    assert_eq!(node0.reduce_by(&mut e, 4), node3);
}

#[test]
fn reduce_basic() {
    let mut e = Engine::new();
    let node0_a = leaf(
        &mut e,
        Block::from_rows(0x80_40_20_10_08_04_02_01),
        Block::from_rows(0x01_02_04_08_10_20_40_80),
        Block::from_rows(0x80_40_20_10_08_04_02_01),
        Block::from_rows(0x01_02_04_08_10_20_40_80),
    );
    let node0 = inner(&mut e, node0_a.clone(), node0_a.clone(), node0_a.clone(), node0_a);
    let block1_a = Block::from_rows(0x81_42_24_18_81_42_24_18);
    let node1 = leaf(&mut e, block1_a, block1_a, block1_a, block1_a);
    assert_eq!(node0.reduce_by(&mut e, 0), node0);
    assert_eq!(node0.reduce_by(&mut e, 1), node1);
}

#[test]
fn all_blocks() {
    let blocks = [
        Block::from_rows(0x80_c0_e0_f0_00_00_00_00),
        Block::from_rows(0xf0_70_30_10_00_00_00_00),
        Block::from_rows(0x0f_0e_0c_08_00_00_00_00),
        Block::from_rows(0x01_03_07_0f_00_00_00_00),
        Block::from_rows(0x00_00_00_00_0f_07_03_01),
        Block::from_rows(0x00_00_00_00_08_0c_0e_0f),
        Block::from_rows(0x00_00_00_00_10_30_70_f0),
        Block::from_rows(0x00_00_00_00_f0_e0_c0_80),
    ];
    for i in 0..8 {
        assert_eq!(blocks[i].rotate_cw(), blocks[(i + 2) % 8], "i={i} cw");
        assert_eq!(blocks[i].rotate_180(), blocks[(i + 4) % 8], "i={i} 180");
        assert_eq!(blocks[i].rotate_ccw(), blocks[(i + 6) % 8], "i={i} ccw");
        assert_eq!(blocks[i].flip_v(), blocks[7 - i], "i={i} v");
        assert_eq!(blocks[i].flip_h(), blocks[(11 - i) % 8], "i={i} h");
    }
}

#[test]
fn test_depth_to_max_steps() {
    assert_eq!(hashlife::depth_to_max_steps(0), 0);
    assert_eq!(hashlife::depth_to_max_steps(1), 8);
    assert_eq!(hashlife::depth_to_max_steps(2), 16);
    assert_eq!(hashlife::depth_to_max_steps(3), 32);
    assert_eq!(hashlife::depth_to_max_steps(hashlife::MAX_DEPTH), 1 << 61);
}

#[test]
fn test_steps_to_min_depth() {
    assert_eq!(steps_to_min_depth(1), 1);
    assert_eq!(steps_to_min_depth(8), 1);
    assert_eq!(steps_to_min_depth(9), 2);
    assert_eq!(steps_to_min_depth(16), 2);
    assert_eq!(steps_to_min_depth(17), 3);
    assert_eq!(steps_to_min_depth(32), 3);
    assert_eq!(steps_to_min_depth((1 << 60) + 1), hashlife::MAX_DEPTH);
    assert_eq!(steps_to_min_depth(1 << 61), hashlife::MAX_DEPTH);
}

#[test]
fn block_still() {
    let a = parse_block(
        "
        ........
        ........
        ........
        ........
        ........
        ........
        ........
        ........
        ",
    );
    let b = parse_block(
        "
        ......o.
        .oo..o.o
        .oo...o.
        ........
        ......o.
        oo...o.o
        o.o..o.o
        .o....o.
        ",
    );
    let c = parse_block(
        "
        .oo.....
        o..o....
        o..o....
        .oo.....
        ......o.
        .....o.o
        ....o..o
        .....oo.
        ",
    );
    assert_block_step(a, 1, a);
    assert_block_step(b, 1, b);
    assert_block_step(c, 1, c);
}

#[test]
fn block_blinker_a() {
    let a = parse_block(
        "
        ........
        .....ooo
        ....ooo.
        ........
        ........
        ........
        ooo.....
        ........
        ",
    );
    let b = parse_block(
        "
        ......o.
        ....o..o
        ....o..o
        .....o..
        ........
        .o......
        .o......
        .o......
        ",
    );
    assert_block_step(a, 1, b);
    assert_block_step(a, 2, a);
    assert_block_step(b, 1, a);
    assert_block_step(b, 2, b);
}

#[test]
fn block_blinker_b() {
    let a = parse_block(
        "
        ..oo....
        ..oo....
        oo......
        oo....oo
        .......o
        ....o.o.
        ...o....
        ...oo...
        ",
    );
    let b = parse_block(
        "
        ..oo....
        ...o....
        o.......
        oo....oo
        .....o.o
        ........
        ...o.o..
        ...oo...
        ",
    );
    assert_block_step(a, 1, b);
    assert_block_step(a, 2, a);
    assert_block_step(b, 1, a);
    assert_block_step(b, 2, b);
}

#[test]
fn block_jam() {
    let a = parse_block(
        "
        .....oo.
        ....o..o
        ..o..o.o
        ..o...o.
        ..o.....
        .....o..
        ...oo...
        ........
        ",
    );
    let b = parse_block(
        "
        .....oo.
        ....o..o
        ...o.o.o
        .ooo..o.
        ........
        ...oo...
        ....o...
        ........
        ",
    );
    let c = parse_block(
        "
        .....oo.
        ....o..o
        ...o.o.o
        ..ooo.o.
        ....o...
        ...oo...
        ...oo...
        ........
        ",
    );
    assert_block_step(a, 1, b);
    assert_block_step(a, 2, c);
    assert_block_step(b, 1, c);
    assert_block_step(b, 2, a);
    assert_block_step(c, 1, a);
    assert_block_step(c, 2, b);
}

#[test]
fn block_blinker_on_edge() {
    let a = parse_block(
        "
        o....ooo
        o.......
        o.......
        ........
        ........
        .......o
        .......o
        ooo....o
        ",
    );
    let b = parse_block(
        "
        ......o.
        oo....o.
        ........
        ........
        ........
        ........
        .o....oo
        .o......
        ",
    );
    let c = parse_block(
        "
        ........
        ........
        ........
        ........
        ........
        ........
        ........
        ........
        ",
    );
    assert_block_step(a, 1, b);
    assert_block_step(a, 2, a);
    assert_block_step(b, 1, c);
}

#[test]
fn block_glider() {
    let a = parse_block(
        "
        ........
        ........
        ........
        ...ooo..
        ...o....
        ....o...
        ........
        ........
        ",
    );
    let b = parse_block(
        "
        ........
        ........
        ....o...
        ...oo...
        ...o.o..
        ........
        ........
        ........
        ",
    );
    let c = parse_block(
        "
        ........
        ........
        ...oo...
        ...o.o..
        ...o....
        ........
        ........
        ........
        ",
    );
    let d = parse_block(
        "
        ........
        ........
        ...oo...
        ..oo....
        ....o...
        ........
        ........
        ........
        ",
    );
    let e = parse_block(
        "
        ........
        ........
        ..ooo...
        ..o.....
        ...o....
        ........
        ........
        ........
        ",
    );
    assert_block_step(a, 1, b);
    assert_block_step(a, 2, c);
    assert_block_step(a, 3, d);
    assert_block_step(a, 4, e);
}

#[test]
fn block_pentadecathlon() {
    let a = parse_block(
        "
        ........
        ........
        oooooooo
        o.oooo.o
        oooooooo
        ........
        ........
        ........
        ",
    );
    let b = parse_block(
        "
        ........
        .oooooo.
        o......o
        ........
        o......o
        .oooooo.
        ........
        ........
        ",
    );
    let c = parse_block(
        "
        ..oooo..
        .oooooo.
        oooooooo
        o......o
        oooooooo
        .oooooo.
        ..oooo..
        ........
        ",
    );
    let d = parse_block(
        "
        .o....o.
        o......o
        ........
        ........
        ........
        o......o
        .o....o.
        ...oo...
        ",
    );
    let e = parse_block(
        "
        ........
        o......o
        o......o
        o......o
        o......o
        o......o
        ........
        ........
        ",
    );
    assert_block_step(a, 1, b);
    assert_block_step(a, 2, c);
    assert_block_step(a, 3, d);
    assert_block_step(a, 4, e);
}

#[test]
fn centered() {
    let mut e = Engine::new();
    let base = leaf(
        &mut e,
        Block::from_rows(0x01_01_01_01_01_01_01_ff),
        Block::from_rows(0x80_80_80_80_80_80_80_ff),
        Block::from_rows(0xff_01_01_01_01_01_01_01),
        Block::from_rows(0xff_80_80_80_80_80_80_80),
    );
    let actual = base.clip(&mut e, Rect::new(Pos::new(-2, -3), Pos::new(4, 3)));
    let expected = leaf(
        &mut e,
        Block::from_rows(0x00_00_00_00_00_01_01_03),
        Block::from_rows(0x00_00_00_00_00_80_80_f8),
        Block::from_rows(0x03_01_01_01_00_00_00_00),
        Block::from_rows(0xf8_80_80_80_00_00_00_00),
    );
    assert_eq!(expected, actual);
}

#[test]
fn se_corner() {
    let mut e = Engine::new();
    let full = Block::from_rows(0xff_ff_ff_ff_ff_ff_ff_ff);
    let base = leaf(&mut e, full, full, full, full);
    let actual = base.clip(&mut e, Rect::new(Pos::new(3, 2), Pos::new(6, 4)));
    let expected = leaf(
        &mut e,
        Block::from_rows(0x00_00_00_00_00_00_00_00),
        Block::from_rows(0x00_00_00_00_00_00_00_00),
        Block::from_rows(0x00_00_00_00_00_00_00_00),
        Block::from_rows(0x00_00_1e_1e_1e_00_00_00),
    );
    assert_eq!(expected, actual);
}

#[test]
fn big() {
    let mut e = Engine::new();
    let l = leaf(
        &mut e,
        Block::from_rows(0x01_01_01_01_01_01_01_ff),
        Block::from_rows(0x80_80_80_80_80_80_80_ff),
        Block::from_rows(0xff_01_01_01_01_01_01_01),
        Block::from_rows(0xff_80_80_80_80_80_80_80),
    );
    let base = inner(&mut e, l.clone(), l.clone(), l.clone(), l);
    let leaf_clip = leaf(
        &mut e,
        Block::from_rows(0x00_00_00_00_00_01_01_03),
        Block::from_rows(0x00_00_00_00_00_80_80_f8),
        Block::from_rows(0x03_01_01_01_00_00_00_00),
        Block::from_rows(0xf8_80_80_80_00_00_00_00),
    );
    let z = Node::empty(&e, 0);
    let got = base.clip(&mut e, Rect::new(Pos::new(-10, -11), Pos::new(-4, -5)));
    let want = inner(&mut e, leaf_clip.clone(), z.clone(), z.clone(), z.clone());
    assert_eq!(got, want);
    let got = base.clip(&mut e, Rect::new(Pos::new(6, -11), Pos::new(12, -5)));
    let want = inner(&mut e, z.clone(), leaf_clip.clone(), z.clone(), z.clone());
    assert_eq!(got, want);
    let got = base.clip(&mut e, Rect::new(Pos::new(-10, 5), Pos::new(-4, 11)));
    let want = inner(&mut e, z.clone(), z.clone(), leaf_clip.clone(), z.clone());
    assert_eq!(got, want);
    let got = base.clip(&mut e, Rect::new(Pos::new(6, 5), Pos::new(12, 11)));
    let want = inner(&mut e, z.clone(), z.clone(), z, leaf_clip);
    assert_eq!(got, want);
}

#[test]
fn extend_empty() {
    let mut r = Rect::nothing();
    r.extend(Pos::new(0, 0));
    assert_eq!(r, Rect::just(Pos::new(0, 0)));
}

fn assert_node_fmt(e: &mut Engine, node: Node, fmt: &str) {
    let mut text = String::from("[M2] (metalife 1.0)\n#R B3/S23\n");
    for line in fmt.lines() {
        let line = line.trim();
        if !line.is_empty() {
            text.push_str(line);
            text.push('\n');
        }
    }
    assert_eq!(node.write_to_string(), text);
    assert_eq!(Node::read_from_string(e, &text).expect("valid input"), node);
}

#[test]
fn empty() {
    let mut e = Engine::new();
    let n0 = Node::empty(&e, 0);
    assert_node_fmt(&mut e, n0, "4 0 0 0 0\n");
    let n1 = Node::empty(&e, 1);
    assert_node_fmt(&mut e, n1, "5 0 0 0 0\n");
    let n59 = Node::empty(&e, 59);
    assert_node_fmt(&mut e, n59, "63 0 0 0 0\n");
}

#[test]
fn mc_format_small() {
    let mut e = Engine::new();
    let b0 = Block::from_rows(0x00_00_00_00_00_00_00_00);
    let b1 = Block::from_rows(0x80_00_00_00_00_00_00_00);
    let b2 = Block::from_rows(0x00_00_00_00_00_00_00_01);
    let b3 = Block::from_rows(0x80_40_20_10_08_04_02_01);
    let n = leaf(&mut e, b1, b1, b1, b1);
    assert_node_fmt(
        &mut e,
        n,
        "
            *$$$$$$$$
            4 1 1 1 1
        ",
    );
    let n = leaf(&mut e, b0, b1, b2, b3);
    assert_node_fmt(
        &mut e,
        n,
        "
            *$$$$$$$$
            $$$$$$$.......*$
            *$.*$..*$...*$....*$.....*$......*$.......*$
            4 0 1 2 3
        ",
    );
}

#[test]
fn offset_small() {
    let mut e = Engine::new();
    let outline = leaf(
        &mut e,
        Block::from_rows(0xff_80_80_80_80_80_80_80),
        Block::from_rows(0xff_01_01_01_01_01_01_01),
        Block::from_rows(0x80_80_80_80_80_80_80_ff),
        Block::from_rows(0x01_01_01_01_01_01_01_ff),
    );
    let z = Block::empty();
    let n_nw = leaf(&mut e, z, Block::from_rows(0x00_00_00_00_00_00_00_ff), z, Block::from_rows(0x80_80_80_80_80_80_80_80));
    let n_ne = leaf(&mut e, Block::from_rows(0x00_00_00_00_00_00_00_ff), z, Block::from_rows(0x01_01_01_01_01_01_01_01), z);
    let n_sw = leaf(&mut e, z, Block::from_rows(0x80_80_80_80_80_80_ff_00), z, z);
    let n_se = leaf(&mut e, Block::from_rows(0x01_01_01_01_01_01_ff_00), z, z, z);
    let n = inner(&mut e, n_nw, n_ne, n_sw, n_se);
    let s_nw = leaf(&mut e, z, z, z, Block::from_rows(0x00_ff_80_80_80_80_80_80));
    let s_ne = leaf(&mut e, z, z, Block::from_rows(0x00_ff_01_01_01_01_01_01), z);
    let s_sw = leaf(&mut e, z, Block::from_rows(0x80_80_80_80_80_80_80_80), z, Block::from_rows(0xff_00_00_00_00_00_00_00));
    let s_se = leaf(&mut e, Block::from_rows(0x01_01_01_01_01_01_01_01), z, Block::from_rows(0xff_00_00_00_00_00_00_00), z);
    let s = inner(&mut e, s_nw, s_ne, s_sw, s_se);

    let s_actual = outline.offset(&mut e, Pos::new(0, 1));
    assert_eq!(s_actual.inner(), s.inner(), "south");

    let n_actual = outline.offset(&mut e, Pos::new(0, -1));
    assert_eq!(n_actual.inner(), n.inner(), "north");
}
