use vstd::prelude::*;

verus! {

/// A colour packed as `0xRRGGBBAA`.
pub type Color = u32;

/// A size in whole pixels.
#[derive(Clone, Copy, Debug, Default, PartialEq, Eq, Structural)]
pub struct PassSize {
    pub w: u32,
    pub h: u32,
}

/// A texture, by its id.
#[derive(Clone, Copy, Debug, Default, PartialEq, Eq, Structural)]
pub struct Texture {
    pub texture_id: u32,
}

/// How a colour target starts out: filled once, or cleared every frame.
#[derive(Clone, Copy, Debug, PartialEq, Eq, Structural)]
pub enum ClearColor {
    InitWith(Color),
    ClearWith(Color),
}

/// A colour target of a pass.
#[derive(Clone, Copy, Debug, PartialEq, Eq, Structural)]
pub struct CxPassColorTexture {
    pub clear_color: ClearColor,
    pub texture_id: u32,
}

/// What a pass draws into: a window, another pass, or nothing yet.
#[derive(Clone, Copy, Debug, PartialEq, Eq, Structural)]
pub enum CxPassDepOf {
    Window(usize),
    Pass(usize),
    Unbound,
}

/// The bookkeeping of one render pass.
pub struct CxPass {
    pub debug: bool,
    pub color_textures: Vec<CxPassColorTexture>,
    pub clear_color: Color,
    pub main_view_id: Option<usize>,
    pub dep_of: CxPassDepOf,
    pub pass_size: PassSize,
}

pub struct CxPassView {
    pub debug: bool,
    pub color_textures: Seq<CxPassColorTexture>,
    pub clear_color: Color,
    pub main_view_id: Option<usize>,
    pub dep_of: CxPassDepOf,
    pub pass_size: PassSize,
}

impl View for CxPass {
    type V = CxPassView;

    open spec fn view(&self) -> CxPassView {
        CxPassView {
            debug: self.debug,
            color_textures: self.color_textures@,
            clear_color: self.clear_color,
            main_view_id: self.main_view_id,
            dep_of: self.dep_of,
            pass_size: self.pass_size,
        }
    }
}

pub open spec fn default_pass() -> CxPassView {
    CxPassView {
        debug: false,
        color_textures: Seq::empty(),
        clear_color: 0,
        main_view_id: None,
        dep_of: CxPassDepOf::Unbound,
        pass_size: PassSize { w: 0, h: 0 },
    }
}

impl CxPass {
    pub fn new() -> (r: CxPass)
        ensures
            r@ == default_pass(),
    {
        let r = CxPass {
            debug: false,
            color_textures: Vec::new(),
            clear_color: 0,
            main_view_id: None,
            dep_of: CxPassDepOf::Unbound,
            pass_size: PassSize { w: 0, h: 0 },
        };
        assert(r@.color_textures =~= Seq::<CxPassColorTexture>::empty());
        r
    }
}

/// A window, as far as passes are concerned.
#[derive(Clone, Copy, Debug, PartialEq, Eq, Structural)]
pub struct CxWindow {
    pub main_pass_id: Option<usize>,
    pub inner_size: PassSize,
}

/// The pass registry of the render context: every pass, the ids free for
/// reuse, the passes and windows being drawn, and the windows.
pub struct Cx {
    pub passes: Vec<CxPass>,
    pub passes_free: Vec<usize>,
    pub pass_stack: Vec<usize>,
    pub window_stack: Vec<usize>,
    pub windows: Vec<CxWindow>,
}

pub struct CxView {
    pub passes: Seq<CxPassView>,
    pub passes_free: Seq<usize>,
    pub pass_stack: Seq<usize>,
    pub window_stack: Seq<usize>,
    pub windows: Seq<CxWindow>,
}

impl View for Cx {
    type V = CxView;

    open spec fn view(&self) -> CxView {
        CxView {
            passes: self.passes@.map_values(|p: CxPass| p@),
            passes_free: self.passes_free@,
            pass_stack: self.pass_stack@,
            window_stack: self.window_stack@,
            windows: self.windows@,
        }
    }
}

impl CxView {
    /// Every id on a stack or free list names an existing pass or window.
    pub open spec fn wf(&self) -> bool {
        &&& forall|i: int| 0 <= i < self.passes_free.len() ==> #[trigger] self.passes_free[i] < self.passes.len()
        &&& forall|i: int| 0 <= i < self.pass_stack.len() ==> #[trigger] self.pass_stack[i] < self.passes.len()
        &&& forall|i: int| 0 <= i < self.window_stack.len() ==> #[trigger] self.window_stack[i] < self.windows.len()
    }
}

/// A pass handle names an existing pass, if it names any.
pub open spec fn pass_valid(p: Pass, c: CxView) -> bool {
    match p.pass_id {
        Some(id) => id < c.passes.len(),
        None => true,
    }
}

/// The context and pass id once `p` has an id: its own, else one taken
/// from the free list, else a fresh default pass.
pub open spec fn alloc_pass(c: CxView, p: Pass) -> (CxView, usize) {
    match p.pass_id {
        Some(id) => (c, id),
        None => if c.passes_free.len() > 0 {
            (CxView { passes_free: c.passes_free.drop_last(), ..c }, c.passes_free.last())
        } else {
            (CxView { passes: c.passes.push(default_pass()), ..c }, c.passes.len() as usize)
        },
    }
}

/// What pass `id` draws into and its size when it begins: it becomes the
/// main pass of the innermost window if that has none yet, else it draws
/// into the innermost pass being drawn and takes its size, else into nothing.
pub open spec fn begin_target(c: CxView, id: usize) -> (Seq<CxWindow>, CxPassDepOf, PassSize) {
    if c.window_stack.len() > 0 && c.windows[c.window_stack.last() as int].main_pass_id.is_none() {
        let w = c.window_stack.last();
        (
            c.windows.update(w as int, CxWindow { main_pass_id: Some(id), ..c.windows[w as int] }),
            CxPassDepOf::Window(w),
            c.windows[w as int].inner_size,
        )
    } else if c.window_stack.len() > 0 && c.pass_stack.len() > 0 {
        let d = c.pass_stack.last();
        (c.windows, CxPassDepOf::Pass(d), c.passes[d as int].pass_size)
    } else {
        (c.windows, CxPassDepOf::Unbound, c.passes[id as int].pass_size)
    }
}

/// The context after pass `p` begins, and the pass's id.
pub open spec fn begin_spec(c: CxView, p: Pass) -> (CxView, usize) {
    let (c1, id) = alloc_pass(c, p);
    let (windows, dep_of, size) = begin_target(c1, id);
    let pass = CxPassView { dep_of, pass_size: size, main_view_id: None, color_textures: Seq::empty(), ..c1.passes[id as int] };
    (CxView { passes: c1.passes.update(id as int, pass), pass_stack: c1.pass_stack.push(id), windows, ..c1 }, id)
}

/// A handle to a render pass, which gets its id on first use.
#[derive(Clone, Copy, Debug, Default, PartialEq, Eq, Structural)]
pub struct Pass {
    pub pass_id: Option<usize>,
}

impl Pass {
    /// Begins drawing this pass: gives it an id if it has none, ties it to
    /// what it draws into, clears its colour targets and pushes it on the
    /// pass stack.
    pub fn begin_pass(&mut self, cx: &mut Cx)
        requires
            old(cx)@.wf(),
            pass_valid(*old(self), old(cx)@),
        ensures
            final(cx)@.wf(),
            final(self).pass_id == Some(begin_spec(old(cx)@, *old(self)).1),
            final(cx)@ == begin_spec(old(cx)@, *old(self)).0,
    {
        let ghost c0 = cx@;
        let pass_id: usize = match self.pass_id {
            Some(id) => id,
            None => {
                let id = if cx.passes_free.len() != 0 {
                    let last = cx.passes_free.pop();
                    last.unwrap()
                } else {
                    cx.passes.push(CxPass::new());
                    cx.passes.len() - 1
                };
                self.pass_id = Some(id);
                id
            },
        };
        let ghost c1 = cx@;
        proof {
            assert(c1 == alloc_pass(c0, *old(self)).0 && pass_id == alloc_pass(c0, *old(self)).1) by {
                if old(self).pass_id.is_none() {
                    if c0.passes_free.len() > 0 {
                        assert(c1.passes_free =~= c0.passes_free.drop_last());
                    } else {
                        assert(c1.passes =~= c0.passes.push(default_pass()));
                    }
                }
            }
            assert(c1.wf()) by {
                assert forall|i: int| 0 <= i < c1.passes_free.len() implies #[trigger] c1.passes_free[i] < c1.passes.len() by {
                    assert(c1.passes_free[i] == c0.passes_free[i]);
                }
            }
        }
        let nw = cx.window_stack.len();
        let mut dep_of = CxPassDepOf::Unbound;
        let mut pass_size = cx.passes[pass_id].pass_size;
        if nw > 0 {
            let window_id = cx.window_stack[nw - 1];
            if cx.windows[window_id].main_pass_id.is_none() {
                let inner = cx.windows[window_id].inner_size;
                cx.windows.set(window_id, CxWindow { main_pass_id: Some(pass_id), inner_size: inner });
                dep_of = CxPassDepOf::Window(window_id);
                pass_size = inner;
            } else if cx.pass_stack.len() > 0 {
                let dep_of_pass_id = cx.pass_stack[cx.pass_stack.len() - 1];
                dep_of = CxPassDepOf::Pass(dep_of_pass_id);
                pass_size = cx.passes[dep_of_pass_id].pass_size;
            }
        }
        cx.passes[pass_id].dep_of = dep_of;
        cx.passes[pass_id].pass_size = pass_size;
        cx.passes[pass_id].main_view_id = None;
        cx.passes[pass_id].color_textures.truncate(0);
        cx.pass_stack.push(pass_id);
        proof {
            let (c2, id2) = begin_spec(c0, *old(self));
            assert(cx@.passes[pass_id as int].color_textures =~= Seq::<CxPassColorTexture>::empty());
            assert(cx@.passes =~= c2.passes);
            assert(cx@.windows =~= c2.windows);
            assert(cx@.pass_stack =~= c2.pass_stack);
        }
    }

    /// Makes this pass draw into `pass`, or into nothing if `pass` has no id.
    pub fn make_dep_of_pass(&mut self, cx: &mut Cx, pass: &Pass)
        requires
            old(self).pass_id.is_some(),
            pass_valid(*old(self), old(cx)@),
        ensures
            *final(self) == *old(self),
            final(cx)@ == ({
                let id = old(self).pass_id.unwrap() as int;
                let dep_of = match pass.pass_id {
                    Some(p) => CxPassDepOf::Pass(p),
                    None => CxPassDepOf::Unbound,
                };
                CxView { passes: old(cx)@.passes.update(id, CxPassView { dep_of, ..old(cx)@.passes[id] }), ..old(cx)@ }
            }),
    {
        let id = self.pass_id.unwrap();
        match pass.pass_id {
            Some(p) => {
                cx.passes[id].dep_of = CxPassDepOf::Pass(p);
            },
            None => {
                cx.passes[id].dep_of = CxPassDepOf::Unbound;
            },
        }
        assert(cx@.passes =~= old(cx)@.passes.update(id as int, cx@.passes[id as int]));
    }

    /// Sets the size of this pass, at least one pixel each way.
    pub fn set_size(&mut self, cx: &mut Cx, pass_size: PassSize)
        requires
            old(self).pass_id.is_some(),
            pass_valid(*old(self), old(cx)@),
        ensures
            *final(self) == *old(self),
            final(cx)@ == ({
                let id = old(self).pass_id.unwrap() as int;
                let size = PassSize {
                    w: if pass_size.w < 1 { 1 } else { pass_size.w },
                    h: if pass_size.h < 1 { 1 } else { pass_size.h },
                };
                CxView { passes: old(cx)@.passes.update(id, CxPassView { pass_size: size, ..old(cx)@.passes[id] }), ..old(cx)@ }
            }),
    {
        let mut pass_size = pass_size;
        if pass_size.w < 1 {
            pass_size.w = 1;
        }
        if pass_size.h < 1 {
            pass_size.h = 1;
        }
        let id = self.pass_id.unwrap();
        cx.passes[id].pass_size = pass_size;
        assert(cx@.passes =~= old(cx)@.passes.update(id as int, cx@.passes[id as int]));
    }

    /// Sets the colour the window of this pass is cleared with.
    pub fn set_window_clear_color(&mut self, cx: &mut Cx, clear_color: Color)
        requires
            old(self).pass_id.is_some(),
            pass_valid(*old(self), old(cx)@),
        ensures
            *final(self) == *old(self),
            final(cx)@ == ({
                let id = old(self).pass_id.unwrap() as int;
                CxView { passes: old(cx)@.passes.update(id, CxPassView { clear_color, ..old(cx)@.passes[id] }), ..old(cx)@ }
            }),
    {
        let id = self.pass_id.unwrap();
        cx.passes[id].clear_color = clear_color;
        assert(cx@.passes =~= old(cx)@.passes.update(id as int, cx@.passes[id as int]));
    }

    /// Adds a colour target to this pass.
    pub fn add_color_texture(&mut self, cx: &mut Cx, texture: Texture, clear_color: ClearColor)
        requires
            old(self).pass_id.is_some(),
            pass_valid(*old(self), old(cx)@),
        ensures
            *final(self) == *old(self),
            final(cx)@ == ({
                let id = old(self).pass_id.unwrap() as int;
                let t = CxPassColorTexture { clear_color, texture_id: texture.texture_id };
                CxView {
                    passes: old(cx)@.passes.update(id, CxPassView { color_textures: old(cx)@.passes[id].color_textures.push(t), ..old(cx)@.passes[id] }),
                    ..old(cx)@
                }
            }),
    {
        let id = self.pass_id.unwrap();
        cx.passes[id].color_textures.push(CxPassColorTexture { clear_color, texture_id: texture.texture_id });
        assert(cx@.passes =~= old(cx)@.passes.update(id as int, cx@.passes[id as int]));
    }

    /// Turns debugging of this pass on or off; a pass without an id is left alone.
    pub fn set_debug(&mut self, cx: &mut Cx, debug: bool)
        requires
            pass_valid(*old(self), old(cx)@),
        ensures
            *final(self) == *old(self),
            final(cx)@ == match old(self).pass_id {
                Some(id) => CxView { passes: old(cx)@.passes.update(id as int, CxPassView { debug, ..old(cx)@.passes[id as int] }), ..old(cx)@ },
                None => old(cx)@,
            },
    {
        if let Some(id) = self.pass_id {
            cx.passes[id].debug = debug;
            assert(cx@.passes =~= old(cx)@.passes.update(id as int, cx@.passes[id as int]));
        }
    }

    /// Ends the innermost pass being drawn.
    pub fn end_pass(&mut self, cx: &mut Cx)
        requires
            old(cx)@.wf(),
        ensures
            final(cx)@.wf(),
            *final(self) == *old(self),
            final(cx)@ == if old(cx)@.pass_stack.len() > 0 {
                CxView { pass_stack: old(cx)@.pass_stack.drop_last(), ..old(cx)@ }
            } else {
                old(cx)@
            },
    {
        let _ = cx.pass_stack.pop();
        assert(cx@.pass_stack =~= if old(cx)@.pass_stack.len() > 0 { old(cx)@.pass_stack.drop_last() } else { old(cx)@.pass_stack });
    }
}

} // verus!
