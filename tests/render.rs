use orbital::metal::{MetalBuffer, MultiMetalBuffer};
use orbital::pass::{ClearColor, Cx, CxPass, CxPassDepOf, CxWindow, Pass, PassSize, Texture};

fn empty_cx() -> Cx {
    Cx { passes: Vec::new(), passes_free: Vec::new(), pass_stack: Vec::new(), window_stack: Vec::new(), windows: Vec::new() }
}

fn window_cx() -> Cx {
    let mut cx = empty_cx();
    cx.windows.push(CxWindow { main_pass_id: None, inner_size: PassSize { w: 800, h: 600 } });
    cx.window_stack.push(0);
    cx
}

#[test]
fn first_pass_of_window_becomes_its_main_pass() {
    let mut cx = window_cx();
    let mut main = Pass::default();
    main.begin_pass(&mut cx);
    assert_eq!(main.pass_id, Some(0));
    assert_eq!(cx.windows[0].main_pass_id, Some(0));
    assert_eq!(cx.passes[0].dep_of, CxPassDepOf::Window(0));
    assert_eq!(cx.passes[0].pass_size, PassSize { w: 800, h: 600 });
    assert_eq!(cx.pass_stack, vec![0]);

    let mut sub = Pass::default();
    sub.begin_pass(&mut cx);
    assert_eq!(sub.pass_id, Some(1));
    assert_eq!(cx.passes[1].dep_of, CxPassDepOf::Pass(0));
    assert_eq!(cx.passes[1].pass_size, PassSize { w: 800, h: 600 });
    assert_eq!(cx.pass_stack, vec![0, 1]);

    sub.end_pass(&mut cx);
    main.end_pass(&mut cx);
    assert!(cx.pass_stack.is_empty());
    main.end_pass(&mut cx);
    assert!(cx.pass_stack.is_empty());
}

#[test]
fn pass_without_window_draws_into_nothing() {
    let mut cx = empty_cx();
    let mut p = Pass::default();
    p.begin_pass(&mut cx);
    assert_eq!(p.pass_id, Some(0));
    assert_eq!(cx.passes[0].dep_of, CxPassDepOf::Unbound);
    assert_eq!(cx.passes[0].pass_size, PassSize { w: 0, h: 0 });
}

#[test]
fn free_pass_ids_are_reused() {
    let mut cx = empty_cx();
    cx.passes.push(CxPass::new());
    cx.passes.push(CxPass::new());
    cx.passes_free.push(1);
    let mut p = Pass::default();
    p.begin_pass(&mut cx);
    assert_eq!(p.pass_id, Some(1));
    assert!(cx.passes_free.is_empty());
    assert_eq!(cx.passes.len(), 2);
}

#[test]
fn begin_clears_color_textures() {
    let mut cx = empty_cx();
    let mut p = Pass::default();
    p.begin_pass(&mut cx);
    p.add_color_texture(&mut cx, Texture { texture_id: 7 }, ClearColor::ClearWith(0xff0000ff));
    p.add_color_texture(&mut cx, Texture { texture_id: 8 }, ClearColor::InitWith(0));
    assert_eq!(cx.passes[0].color_textures.len(), 2);
    assert_eq!(cx.passes[0].color_textures[1].texture_id, 8);
    assert_eq!(cx.passes[0].color_textures[0].clear_color, ClearColor::ClearWith(0xff0000ff));
    p.end_pass(&mut cx);
    p.begin_pass(&mut cx);
    assert!(cx.passes[0].color_textures.is_empty());
    assert_eq!(cx.passes.len(), 1);
}

#[test]
fn set_size_is_at_least_one_pixel() {
    let mut cx = empty_cx();
    let mut p = Pass::default();
    p.begin_pass(&mut cx);
    p.set_size(&mut cx, PassSize { w: 0, h: 40 });
    assert_eq!(cx.passes[0].pass_size, PassSize { w: 1, h: 40 });
    p.set_size(&mut cx, PassSize { w: 30, h: 20 });
    assert_eq!(cx.passes[0].pass_size, PassSize { w: 30, h: 20 });
}

#[test]
fn pass_settings() {
    let mut cx = empty_cx();
    let mut a = Pass::default();
    let mut b = Pass::default();
    a.begin_pass(&mut cx);
    b.begin_pass(&mut cx);
    b.make_dep_of_pass(&mut cx, &a);
    assert_eq!(cx.passes[1].dep_of, CxPassDepOf::Pass(0));
    b.make_dep_of_pass(&mut cx, &Pass::default());
    assert_eq!(cx.passes[1].dep_of, CxPassDepOf::Unbound);
    a.set_window_clear_color(&mut cx, 0x336699ff);
    assert_eq!(cx.passes[0].clear_color, 0x336699ff);
    a.set_debug(&mut cx, true);
    assert!(cx.passes[0].debug);
    assert!(!cx.passes[1].debug);
    let mut none = Pass::default();
    none.set_debug(&mut cx, true);
    assert!(!cx.passes[1].debug);
}

#[test]
fn metal_buffers_rotate_through_five() {
    let mut b = MetalBuffer::default();
    assert_eq!(b.last_written, 0);
    for i in 1..=7usize {
        let w = b.multi_buffer_write();
        w.used = i;
        w.size = 10 * i;
        assert_eq!(b.last_written, i % 5);
        assert_eq!(b.multi_buffer_read().used, i);
    }
    assert_eq!(b.multi1, MultiMetalBuffer { buffer: None, size: 50, used: 5 });
    assert_eq!(b.multi2.used, 6);
    assert_eq!(b.multi3.used, 7);
    assert_eq!(b.multi4.used, 3);
    assert_eq!(b.multi5.used, 4);
}
