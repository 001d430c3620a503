//! Definition and functionality for an individual window's rendering
//! context: a holder that couples the context with its window handle,
//! presentation surface, display connection and per-window options.
//!
//! The context's current / not-current state is encoded in the holder's
//! type, so draw-side operations (buffer swap, resize) simply do not exist
//! on a not-current holder. Transitions consume the holder and produce one
//! of the other state, carrying every other field over unchanged. The
//! context travels together with the surface it drives, as a pair formed
//! at one checked door, because glutin's paired operations abort on a
//! cross-backend pair; the driver calls go through trusted wrappers that
//! take such pairs. Everything decided here -- which swap interval the
//! vsync option selects, the floor of one pixel on each surface
//! dimension, what a transition preserves -- is verified.

use vstd::prelude::*;

verus! {

#[verifier::external_type_specification]
#[verifier::external_body]
/// Declares glutin's not-current context type for use in signatures.
pub struct ExNotCurrentContext(glutin::context::NotCurrentContext);

/// Holds glutin's window-surface value on its way into a pair. The
/// surface type's own trait-bounded type parameter keeps it from being
/// declared to the verifier directly, so this wrapper carries it
/// opaquely; the host side builds one around the surface it created for
/// the window and hands it to `pair_context_with_surface`.
#[verifier::external_body]
pub struct PresentationSurface {
    /// The surface glutin created for this window.
    pub surface: glutin::surface::Surface<glutin::surface::WindowSurface>,
}

/// A not-current rendering context paired with the presentation surface
/// it drives. glutin dispatches every paired operation (activation, swap,
/// resize) on the backends of both halves and aborts on a cross-backend
/// pair, so pairing is checked once, at `pair_context_with_surface` --
/// the type's only door -- and every value of this type holds two halves
/// of the same backend. The transition wrappers below preserve that
/// invariant: they replace one half with glutin's same-backend successor
/// and carry the other over.
#[verifier::external_body]
pub struct NotCurrentSurfacePair {
    /// The not-current context.
    context: glutin::context::NotCurrentContext,
    /// The surface the context drives.
    surface: glutin::surface::Surface<glutin::surface::WindowSurface>,
}

/// A possibly-current rendering context paired with the presentation
/// surface it drives; same backend-matching invariant as
/// `NotCurrentSurfacePair`, from which all values of this type descend.
#[verifier::external_body]
pub struct CurrentSurfacePair {
    /// The possibly-current context.
    context: glutin::context::PossiblyCurrentContext,
    /// The surface the context drives.
    surface: glutin::surface::Surface<glutin::surface::WindowSurface>,
}

/// Pair a freshly created context with the surface it will drive: the
/// only way a pair value comes to exist. Relies on glutin's enum layout
/// on this platform (EGL and GLX backends): the pair is accepted only
/// when both halves come from the same backend, so the cross-backend
/// abort inside glutin's paired operations is unreachable for every pair
/// value. Creating both halves from one display, as window creation
/// does, always satisfies this.
#[verifier::external_body]
pub fn pair_context_with_surface(
    context: glutin::context::NotCurrentContext,
    surface: PresentationSurface,
) -> Option<NotCurrentSurfacePair> {
    let PresentationSurface { surface } = surface;
    let matched = matches!(
        (&context, &surface),
        (glutin::context::NotCurrentContext::Egl(_), glutin::surface::Surface::Egl(_)) | (
            glutin::context::NotCurrentContext::Glx(_),
            glutin::surface::Surface::Glx(_),
        ),
    );
    if matched {
        Some(NotCurrentSurfacePair { context, surface })
    } else {
        None
    }
}

#[verifier::external_type_specification]
#[verifier::external_body]
/// Declares glutin's display connection type.
pub struct ExDisplay(glutin::display::Display);

#[verifier::external_type_specification]
#[verifier::external_body]
/// Declares glutin's error type, carried inside this module's own error.
pub struct ExGlutinError(glutin::error::Error);

/// The shader-version hint handed to the UI painter when a window's UI
/// instance is constructed; carried through untouched by this module.
#[derive(Copy, Clone, PartialEq, Eq, Structural, Debug)]
pub enum ShaderVersion {
    /// Desktop GL, shader language 1.20.
    Gl120,
    /// Desktop GL, shader language 1.40.
    Gl140,
    /// GL ES, shader language 1.00.
    Es100,
    /// GL ES, shader language 3.00.
    Es300,
}

/// The options for a window.
#[derive(Copy, Clone)]
pub struct TrackedWindowOptions {
    /// Whether buffer swaps should wait for vertical blank.
    pub vsync: bool,
    /// Optionally sets the shader version for the window.
    pub shader: Option<ShaderVersion>,
}

/// A physical surface size in pixels.
#[derive(Copy, Clone, PartialEq, Eq, Structural, Debug)]
pub struct SurfaceSize {
    /// Width in pixels.
    pub width: u32,
    /// Height in pixels.
    pub height: u32,
}

/// The swap policy applied immediately before a buffer swap: some
/// platforms only honor interval changes adjacent to the swap call.
#[derive(Copy, Clone, PartialEq, Eq, Structural, Debug)]
pub enum SwapIntervalKind {
    /// Wait for one vertical blank before swapping.
    WaitOne,
    /// Swap immediately.
    DontWait,
}

/// Errors surfaced when the display refuses a context operation; fatal to
/// the affected window, never retried.
pub struct ContextError {
    /// The underlying error the graphics backend reported.
    pub backend: glutin::error::Error,
}

/// Enumerates the kinds of errors that display creation can have.
#[derive(Copy, Clone, PartialEq, Eq, Structural, Debug)]
pub enum DisplayCreationError {
    /// Every enumerated rendering configuration was tried and none
    /// yielded a surface and context.
    ConfigurationsExhausted,
}

/// A dimension clamped to the one-pixel floor: a zero-area surface is
/// undefined behavior for most presentation backends.
pub open spec fn clamp_dim(d: u32) -> u32 {
    if d == 0 {
        1
    } else {
        d
    }
}

/// A surface size with both dimensions clamped to the one-pixel floor.
pub open spec fn clamped_surface_size(s: SurfaceSize) -> SurfaceSize {
    SurfaceSize { width: clamp_dim(s.width), height: clamp_dim(s.height) }
}

/// Clamp a requested surface size to the one-pixel floor in each
/// dimension.
pub fn clamp_surface_size(s: SurfaceSize) -> (r: SurfaceSize)
    ensures
        r == clamped_surface_size(s),
        r.width >= 1,
        r.height >= 1,
{
    SurfaceSize {
        width: if s.width == 0 {
            1
        } else {
            s.width
        },
        height: if s.height == 0 {
            1
        } else {
            s.height
        },
    }
}

/// The swap interval the vsync option selects: wait for vblank when vsync
/// is enabled, swap immediately otherwise.
pub fn swap_interval_for(vsync: bool) -> (k: SwapIntervalKind)
    ensures
        k == (if vsync {
            SwapIntervalKind::WaitOne
        } else {
            SwapIntervalKind::DontWait
        }),
{
    if vsync {
        SwapIntervalKind::WaitOne
    } else {
        SwapIntervalKind::DontWait
    }
}

/// A holder of context and related items. `T` is the context state: one
/// of the two context-and-surface pair types, so the surface always
/// travels with the context that drives it. `W` is the host's window
/// handle type, carried through untouched.
pub struct ContextHolder<T, W> {
    /// The context being held, paired with its surface.
    context: T,
    /// The window.
    pub window: W,
    /// The display.
    display: glutin::display::Display,
    /// The options for the display.
    options: TrackedWindowOptions,
}

impl<T, W> ContextHolder<T, W> {
    /// The held context.
    pub closed spec fn spec_context(&self) -> T {
        self.context
    }

    /// The window handle.
    pub closed spec fn spec_window(&self) -> W {
        self.window
    }

    /// The display connection.
    pub closed spec fn spec_display(&self) -> glutin::display::Display {
        self.display
    }

    /// The per-window options.
    pub closed spec fn spec_options(&self) -> TrackedWindowOptions {
        self.options
    }

    /// Create a new context holder around a paired context and surface.
    pub fn new(
        context: T,
        window: W,
        display: glutin::display::Display,
        options: TrackedWindowOptions,
    ) -> (r: Self)
        ensures
            r.spec_context() == context,
            r.spec_window() == window,
            r.spec_display() == display,
            r.spec_options() == options,
    {
        Self { context, window, display, options }
    }

    /// The display connection, for function-pointer resolution on the host
    /// side; valid in either context state because it belongs to the
    /// display, not the context.
    pub fn display(&self) -> (d: &glutin::display::Display)
        ensures
            d == self.spec_display(),
    {
        &self.display
    }

    /// The vsync option this holder was created with.
    pub fn vsync(&self) -> (v: bool)
        ensures
            v == self.spec_options().vsync,
    {
        self.options.vsync
    }
}

/// Form a window's not-current holder from a freshly created context
/// and surface: the pair is accepted only when glutin built both on the
/// same backend -- which creating both from one display guarantees --
/// and a mismatch yields nothing, so no holder ever carries a
/// mismatched pair.
pub fn holder_from_parts<W>(
    context: glutin::context::NotCurrentContext,
    surface: PresentationSurface,
    window: W,
    display: glutin::display::Display,
    options: TrackedWindowOptions,
) -> (r: Option<ContextHolder<NotCurrentSurfacePair, W>>)
    ensures
        r matches Some(h) ==> h.spec_window() == window && h.spec_display() == display
            && h.spec_options() == options,
{
    match pair_context_with_surface(context, surface) {
        Some(pair) => Some(ContextHolder::new(pair, window, display, options)),
        None => None,
    }
}

impl<T, W: Clone> ContextHolder<T, W> {
    /// Get the window handle: a clone of the held one.
    pub fn window(&self) -> (w: W)
        ensures
            cloned(self.spec_window(), w),
    {
        self.window.clone()
    }
}

impl<W> ContextHolder<CurrentSurfacePair, W> {
    /// Swap buffers, applying the configured vsync policy immediately
    /// before the swap. A failure to set the interval is ignored, as some
    /// platforms refuse it; a failed swap is fatal to this window and is
    /// surfaced to the caller.
    pub fn swap_buffers(&self) -> Result<(), ContextError> {
        match swap_interval_for(self.options.vsync) {
            SwapIntervalKind::WaitOne => {
                let _e = pair_set_swap_wait(&self.context);
            },
            SwapIntervalKind::DontWait => {
                let _e = pair_set_swap_nowait(&self.context);
            },
        }
        match pair_swap_buffers(&self.context) {
            Ok(u) => Ok(u),
            Err(e) => Err(ContextError { backend: e }),
        }
    }

    /// Resize the presentation surface, clamping both dimensions to the
    /// one-pixel floor; the size actually requested from the backend is
    /// returned.
    pub fn resize(&self, size: SurfaceSize) -> (effective: SurfaceSize)
        ensures
            effective == clamped_surface_size(size),
    {
        let eff = clamp_surface_size(size);
        pair_resize(&self.context, eff.width, eff.height);
        eff
    }

    /// Make the context current again; fails only if the display refuses,
    /// which is fatal to this window. The holder itself is unchanged.
    pub fn make_current(&mut self) -> (r: Result<(), ContextError>)
        ensures
            *final(self) == *old(self),
    {
        match pair_remake_current(&self.context) {
            Ok(u) => Ok(u),
            Err(e) => Err(ContextError { backend: e }),
        }
    }

    /// Make a possibly current context not-current. On success every
    /// field but the context pair itself is carried over unchanged -- and
    /// the pair keeps its surface -- so the result behaves like a freshly
    /// created not-current holder for this window.
    pub fn make_not_current(self) -> (r: Result<
        ContextHolder<NotCurrentSurfacePair, W>,
        ContextError,
    >)
        ensures
            r matches Ok(h) ==> h.spec_window() == self.spec_window() && h.spec_display()
                == self.spec_display() && h.spec_options() == self.spec_options(),
    {
        let ContextHolder { context, window, display, options } = self;
        match pair_make_not_current(context) {
            Ok(c) => Ok(ContextHolder { context: c, window, display, options }),
            Err(e) => Err(ContextError { backend: e }),
        }
    }
}

impl<W> ContextHolder<NotCurrentSurfacePair, W> {
    /// Transforms a not-current context into a possibly-current context,
    /// activated against its own paired surface. Fails only if the
    /// display refuses, which is fatal to this window. On success every
    /// field but the context pair itself is carried over unchanged.
    pub fn make_current(self) -> (r: Result<ContextHolder<CurrentSurfacePair, W>, ContextError>)
        ensures
            r matches Ok(h) ==> h.spec_window() == self.spec_window() && h.spec_display()
                == self.spec_display() && h.spec_options() == self.spec_options(),
    {
        let ContextHolder { context, window, display, options } = self;
        match pair_make_current(context) {
            Ok(c) => Ok(ContextHolder { context: c, window, display, options }),
            Err(e) => Err(ContextError { backend: e }),
        }
    }
}

/// Relies on glutin's `NotCurrentGlContext::make_current`: activates the
/// pair's context against the pair's own surface, consuming the
/// not-current form. The pair's backend-matching invariant rules out the
/// cross-backend abort inside glutin's dispatch; success otherwise
/// depends on the display and driver, so nothing is promised of the
/// outcome.
#[verifier::external_body]
fn pair_make_current(p: NotCurrentSurfacePair) -> Result<CurrentSurfacePair, glutin::error::Error> {
    let NotCurrentSurfacePair { context, surface } = p;
    match glutin::prelude::NotCurrentGlContext::make_current(context, &surface) {
        Ok(c) => Ok(CurrentSurfacePair { context: c, surface }),
        Err(e) => Err(e),
    }
}

/// Relies on glutin's `PossiblyCurrentGlContext::make_not_current`:
/// releases the pair's context, consuming the possibly-current form; the
/// surface is carried over. Success depends on the display and driver,
/// so nothing is promised of the outcome.
#[verifier::external_body]
fn pair_make_not_current(p: CurrentSurfacePair) -> Result<
    NotCurrentSurfacePair,
    glutin::error::Error,
> {
    let CurrentSurfacePair { context, surface } = p;
    match glutin::prelude::PossiblyCurrentGlContext::make_not_current(context) {
        Ok(c) => Ok(NotCurrentSurfacePair { context: c, surface }),
        Err(e) => Err(e),
    }
}

/// Relies on glutin's `PossiblyCurrentGlContext::make_current` on the
/// possibly-current form: re-activates the pair's context against the
/// pair's own surface, in place. The pair's invariant rules out the
/// cross-backend abort.
#[verifier::external_body]
fn pair_remake_current(p: &CurrentSurfacePair) -> Result<(), glutin::error::Error> {
    glutin::prelude::PossiblyCurrentGlContext::make_current(&p.context, &p.surface)
}

/// Relies on glutin's `GlSurface::set_swap_interval` with a one-frame
/// wait: asks the backend to hold each swap for one vertical blank. The
/// pair's invariant rules out the cross-backend abort.
#[verifier::external_body]
fn pair_set_swap_wait(p: &CurrentSurfacePair) -> Result<(), glutin::error::Error> {
    glutin::surface::GlSurface::set_swap_interval(
        &p.surface,
        &p.context,
        glutin::surface::SwapInterval::Wait(std::num::NonZeroU32::MIN),
    )
}

/// Relies on glutin's `GlSurface::set_swap_interval` with no wait: asks
/// the backend to present immediately. The pair's invariant rules out
/// the cross-backend abort.
#[verifier::external_body]
fn pair_set_swap_nowait(p: &CurrentSurfacePair) -> Result<(), glutin::error::Error> {
    glutin::surface::GlSurface::set_swap_interval(
        &p.surface,
        &p.context,
        glutin::surface::SwapInterval::DontWait,
    )
}

/// Relies on glutin's `GlSurface::swap_buffers`: presents the pair's
/// surface on the pair's context. The pair's invariant rules out the
/// cross-backend abort; success otherwise depends on the display and
/// driver.
#[verifier::external_body]
fn pair_swap_buffers(p: &CurrentSurfacePair) -> Result<(), glutin::error::Error> {
    glutin::surface::GlSurface::swap_buffers(&p.surface, &p.context)
}

/// Relies on glutin's `GlSurface::resize`: resizes the pair's surface
/// where the platform supports it. The pair's invariant rules out the
/// cross-backend abort, and glutin takes the dimensions as nonzero
/// integers, which the conversion here enforces, so callers prove both
/// are at least one.
#[verifier::external_body]
fn pair_resize(p: &CurrentSurfacePair, w: u32, h: u32)
    requires
        w >= 1,
        h >= 1,
{
    glutin::surface::GlSurface::resize(
        &p.surface,
        &p.context,
        std::num::NonZeroU32::new(w).unwrap(),
        std::num::NonZeroU32::new(h).unwrap(),
    )
}

/// Enum of the potential options for a window context: the typestate
/// holder in either of its states, or taken out while a transition is in
/// progress. The taken state exists only while a container's context is
/// being moved between the other two and must never be observably held
/// for longer than that operation.
pub enum IndeterminateWindowedContext<W> {
    /// The window context is possibly current.
    PossiblyCurrent(ContextHolder<CurrentSurfacePair, W>),
    /// The window context is not current.
    NotCurrent(ContextHolder<NotCurrentSurfacePair, W>),
    /// The window context is taken out while it changes state.
    Taken,
}

impl<W> IndeterminateWindowedContext<W> {
    /// The per-window options of the held context, if one is held.
    pub open spec fn spec_options(&self) -> Option<TrackedWindowOptions> {
        match self {
            IndeterminateWindowedContext::PossiblyCurrent(h) => Some(h.spec_options()),
            IndeterminateWindowedContext::NotCurrent(h) => Some(h.spec_options()),
            IndeterminateWindowedContext::Taken => None,
        }
    }

    /// The window handle of the held context, if one is held.
    pub open spec fn spec_window(&self) -> Option<W> {
        match self {
            IndeterminateWindowedContext::PossiblyCurrent(h) => Some(h.spec_window()),
            IndeterminateWindowedContext::NotCurrent(h) => Some(h.spec_window()),
            IndeterminateWindowedContext::Taken => None,
        }
    }

    /// Attempt to make the held context current: a not-current holder is
    /// activated, an already possibly-current one is re-activated in
    /// place, and a taken slot stays taken. On success a held context is
    /// possibly current afterwards, with its window and options carried
    /// over; a display refusal is fatal to this window.
    pub fn make_current(self) -> (r: Result<Self, ContextError>)
        ensures
            self is Taken ==> r is Ok,
            r matches Ok(c) ==> c.spec_options() == self.spec_options() && c.spec_window()
                == self.spec_window() && ((self is Taken) <==> (c is Taken)) && (!(self is Taken)
                ==> c is PossiblyCurrent),
    {
        match self {
            IndeterminateWindowedContext::PossiblyCurrent(mut pc) => {
                match pc.make_current() {
                    Ok(_u) => Ok(IndeterminateWindowedContext::PossiblyCurrent(pc)),
                    Err(e) => Err(e),
                }
            },
            IndeterminateWindowedContext::NotCurrent(nc) => {
                match nc.make_current() {
                    Ok(c) => Ok(IndeterminateWindowedContext::PossiblyCurrent(c)),
                    Err(e) => Err(e),
                }
            },
            IndeterminateWindowedContext::Taken => Ok(IndeterminateWindowedContext::Taken),
        }
    }

    /// Make the held context not current; a not-current holder and a
    /// taken slot are unchanged. On success a held context is not current
    /// afterwards, with its window and options carried over.
    pub fn make_not_current(self) -> (r: Result<Self, ContextError>)
        ensures
            !(self is PossiblyCurrent) ==> r is Ok,
            r matches Ok(c) ==> c.spec_options() == self.spec_options() && c.spec_window()
                == self.spec_window() && ((self is Taken) <==> (c is Taken)) && (!(self is Taken)
                ==> c is NotCurrent),
    {
        match self {
            IndeterminateWindowedContext::PossiblyCurrent(pc) => {
                match pc.make_not_current() {
                    Ok(nc) => Ok(IndeterminateWindowedContext::NotCurrent(nc)),
                    Err(e) => Err(e),
                }
            },
            IndeterminateWindowedContext::NotCurrent(nc) => Ok(
                IndeterminateWindowedContext::NotCurrent(nc),
            ),
            IndeterminateWindowedContext::Taken => Ok(IndeterminateWindowedContext::Taken),
        }
    }

    /// Get the window handle; the context must be held.
    pub fn window(&self) -> (w: &W)
        requires
            !(self is Taken),
        ensures
            Some(*w) == self.spec_window(),
    {
        match self {
            IndeterminateWindowedContext::PossiblyCurrent(pc) => &pc.window,
            IndeterminateWindowedContext::NotCurrent(nc) => &nc.window,
            IndeterminateWindowedContext::Taken => unreached(),
        }
    }

    /// Take the context out of a mutable slot to transition it, leaving
    /// the taken marker behind; the caller puts the transitioned context
    /// back immediately, so the taken state is never observably held for
    /// longer than the transition.
    pub fn take(&mut self) -> (r: Self)
        ensures
            r == *old(self),
            *final(self) is Taken,
    {
        let mut out = IndeterminateWindowedContext::Taken;
        core::mem::swap(self, &mut out);
        out
    }

    /// Get a possibly current context.
    pub fn context(&self) -> (r: Option<&ContextHolder<CurrentSurfacePair, W>>)
        ensures
            (r is Some) <==> (self is PossiblyCurrent),
            r matches Some(h) ==> *h == self->PossiblyCurrent_0,
    {
        match self {
            IndeterminateWindowedContext::PossiblyCurrent(pc) => Some(pc),
            IndeterminateWindowedContext::NotCurrent(_nc) => None,
            IndeterminateWindowedContext::Taken => None,
        }
    }
}

pub assume_specification<T>[ rand::random::<T> ]() -> (r: T)
    where
        rand::distr::StandardUniform: rand::distr::Distribution<T>,
;

/// A separate identifier for a window container, drawn at random as the
/// original ids are; randomness means nothing is promised of the value.
pub fn new_container_id() -> u32 {
    rand::random::<u32>()
}

/// The common data for all window types. `W` is the host's window handle
/// type; `E` is the UI library's per-window instance, absent until the
/// window reaches its initialized state and cleared again on teardown.
pub struct CommonWindowData<W, E> {
    /// The context for the window.
    pub gl_window: IndeterminateWindowedContext<W>,
    /// The UI instance for this window; each window has a separate one.
    pub egui: Option<E>,
    /// The viewport id for the window.
    pub viewportid: u64,
    /// The optional shader version for the window.
    pub shader: Option<ShaderVersion>,
    /// Whether a deferred viewport callback drives this window's frames;
    /// the callback itself lives on the host side.
    pub has_viewport_cb: bool,
    /// A separate id from the window id.
    pub id: u32,
}

/// The main container for a plain window: application content plus the
/// common data.
pub struct PlainWindowContainer<S, W, E> {
    /// The common data.
    pub common: CommonWindowData<W, E>,
    /// The actual window content.
    pub window: S,
}

/// The container for a viewport window: common data only, no application
/// content.
pub struct ViewportWindowContainer<W, E> {
    /// The common data.
    pub common: CommonWindowData<W, E>,
}

/// Defines a window: a plain window holding application content, or a
/// viewport window driven by the UI layer's deferred callback.
pub enum TrackedWindowContainer<S, W, E> {
    /// A plain window.
    PlainWindow(PlainWindowContainer<S, W, E>),
    /// A viewport window.
    Viewport(ViewportWindowContainer<W, E>),
}

impl<S, W, E> TrackedWindowContainer<S, W, E> {
    /// The common data of either variant.
    pub open spec fn spec_common(&self) -> CommonWindowData<W, E> {
        match self {
            TrackedWindowContainer::PlainWindow(p) => p.common,
            TrackedWindowContainer::Viewport(v) => v.common,
        }
    }

    /// Get the common data for the window.
    pub fn common(&self) -> (c: &CommonWindowData<W, E>)
        ensures
            *c == self.spec_common(),
    {
        match self {
            TrackedWindowContainer::PlainWindow(p) => &p.common,
            TrackedWindowContainer::Viewport(v) => &v.common,
        }
    }

    /// Whether this container is a viewport window.
    pub fn is_viewport(&self) -> (b: bool)
        ensures
            b == (self is Viewport),
    {
        match self {
            TrackedWindowContainer::PlainWindow(_p) => false,
            TrackedWindowContainer::Viewport(_v) => true,
        }
    }

    /// Get the window content, present only for plain windows.
    pub fn window_data(&self) -> (r: Option<&S>)
        ensures
            (r is Some) <==> (self is PlainWindow),
            r matches Some(w) ==> *w == self->PlainWindow_0.window,
    {
        match self {
            TrackedWindowContainer::PlainWindow(p) => Some(&p.window),
            TrackedWindowContainer::Viewport(_v) => None,
        }
    }

    /// Whether a redraw cycle can run: the UI instance must have been
    /// constructed.
    pub fn ready_for_events(&self) -> (b: bool)
        ensures
            b == (self.spec_common().egui is Some),
    {
        match self {
            TrackedWindowContainer::PlainWindow(p) => p.common.egui.is_some(),
            TrackedWindowContainer::Viewport(v) => v.common.egui.is_some(),
        }
    }

    /// Decide teardown when the window is closing: a plain window honors
    /// its content's veto (`can_quit`), a viewport window has no veto.
    /// Returns whether the host must destroy the UI instance now; a
    /// viewport window's instance is dropped here as well.
    pub fn try_quit(&mut self, can_quit: bool) -> (destroy: bool)
        ensures
            destroy == ((*old(self)) is Viewport || can_quit),
            (*old(self)) is PlainWindow ==> *final(self) == *old(self),
            (*old(self)) is Viewport ==> (*final(self)) is Viewport && final(self).spec_common().egui
                is None && final(self).spec_common().gl_window == old(
                self,
            ).spec_common().gl_window && final(self).spec_common().viewportid == old(
                self,
            ).spec_common().viewportid && final(self).spec_common().id == old(
                self,
            ).spec_common().id,
    {
        match self {
            TrackedWindowContainer::PlainWindow(_p) => can_quit,
            TrackedWindowContainer::Viewport(v) => {
                v.common.egui = None;
                true
            },
        }
    }
}

/// The order in which enumerated rendering configurations are tried when
/// a window is created: by multisample count ascending, ties kept in
/// enumeration order, so the cheapest matching configuration wins and
/// creation is reproducible. `samples` holds each configuration's
/// multisample count, in enumeration order; the result lists the
/// positions to try. Surface and context creation is attempted against
/// each in turn until one succeeds; exhausting them all is fatal.
pub fn config_try_order(samples: &Vec<u8>) -> (order: Vec<usize>)
    ensures
        order@.len() == samples@.len(),
        order@.no_duplicates(),
        forall|k: int| 0 <= k < order@.len() ==> 0 <= #[trigger] order@[k] < samples@.len(),
        forall|a: int, b: int|
            0 <= a < b < order@.len() ==> samples@[#[trigger] order@[a] as int]
                <= samples@[#[trigger] order@[b] as int],
        forall|a: int, b: int|
            0 <= a < b < order@.len() && samples@[#[trigger] order@[a] as int] == samples@[#[trigger] order@[b] as int] ==> order@[a] < order@[b],
{
    let n = samples.len();
    let mut order: Vec<usize> = Vec::new();
    let mut i: usize = 0;
    while i < n
        invariant
            i <= n,
            n == samples@.len(),
            order@.len() == i,
            forall|k: int| 0 <= k < order@.len() ==> 0 <= #[trigger] order@[k] < i,
            order@.no_duplicates(),
            forall|a: int, b: int|
                0 <= a < b < order@.len() ==> samples@[#[trigger] order@[a] as int]
                    <= samples@[#[trigger] order@[b] as int],
            forall|a: int, b: int|
                0 <= a < b < order@.len() && samples@[#[trigger] order@[a] as int] == samples@[#[trigger] order@[b] as int] ==> order@[a] < order@[b],
        decreases n - i,
    {
        let key = samples[i];
        let mut p: usize = 0;
        while p < order.len() && samples[order[p]] <= key
            invariant
                p <= order@.len(),
                n == samples@.len(),
                order@.len() == i < n,
                key == samples@[i as int],
                forall|k: int| 0 <= k < order@.len() ==> 0 <= #[trigger] order@[k] < i,
                forall|k: int| 0 <= k < p ==> samples@[#[trigger] order@[k] as int] <= key,
            decreases order@.len() - p,
        {
            p += 1;
        }
        let ghost before = order@;
        order.insert(p, i);
        proof {
            assert forall|k: int| 0 <= k < order@.len() implies 0 <= #[trigger] order@[k] < i + 1 by {
                if k < p {
                    assert(order@[k] == before[k]);
                } else if k == p {
                } else {
                    assert(order@[k] == before[k - 1]);
                }
            }
            assert forall|a: int, b: int|
                0 <= a < b < order@.len() implies samples@[#[trigger] order@[a] as int]
                <= samples@[#[trigger] order@[b] as int] by {
                if b < p {
                } else if b == p {
                    assert(order@[a] == before[a]);
                } else if a == p {
                    assert(order@[b] == before[b - 1]);
                    assert(p < order@.len() - 1 ==> samples@[before[p as int] as int] > key);
                } else if a < p {
                    assert(order@[a] == before[a]);
                    assert(order@[b] == before[b - 1]);
                } else {
                    assert(order@[a] == before[a - 1]);
                    assert(order@[b] == before[b - 1]);
                }
            }
            assert forall|a: int, b: int|
                0 <= a < b < order@.len() && samples@[#[trigger] order@[a] as int] == samples@[#[trigger] order@[b] as int] implies order@[a] < order@[b] by {
                if b < p {
                } else if b == p {
                    assert(order@[a] == before[a]);
                } else if a == p {
                    assert(order@[b] == before[b - 1]);
                } else if a < p {
                    assert(order@[a] == before[a]);
                    assert(order@[b] == before[b - 1]);
                } else {
                    assert(order@[a] == before[a - 1]);
                    assert(order@[b] == before[b - 1]);
                }
            }
            assert forall|a: int, b: int|
                0 <= a < order@.len() && 0 <= b < order@.len() && a != b implies order@[a]
                != order@[b] by {
                if a != p && b != p {
                    let aa = if a < p {
                        a
                    } else {
                        a - 1
                    };
                    let bb = if b < p {
                        b
                    } else {
                        b - 1
                    };
                    assert(order@[a] == before[aa]);
                    assert(order@[b] == before[bb]);
                } else if a == p {
                    let bb = if b < p {
                        b
                    } else {
                        b - 1
                    };
                    assert(order@[b] == before[bb]);
                } else {
                    let aa = if a < p {
                        a
                    } else {
                        a - 1
                    };
                    assert(order@[a] == before[aa]);
                }
            }
        }
        i += 1;
    }
    order
}

} // verus!
