//! Host-side bookkeeping for the surrounding application: monitor
//! dimensions and the readiness of optional render integrations. The host
//! constructs one context, passes it explicitly to whatever needs it, and
//! drops it when done — there is no module-wide mutable state.

use vstd::prelude::*;

verus! {

/// The host's explicit context object: display dimensions, once known, and
/// whether the audio integration has been brought up.
pub struct HostContext {
    pub monitor_width: Option<u32>,
    pub monitor_height: Option<u32>,
    pub audio_ready: bool,
}

impl HostContext {
    /// A fresh context: no dimensions known, nothing initialized.
    pub fn new() -> (ctx: HostContext)
        ensures
            ctx.monitor_width is None,
            ctx.monitor_height is None,
            !ctx.audio_ready,
    {
        HostContext { monitor_width: None, monitor_height: None, audio_ready: false }
    }
}

/// Record the display dimensions the host discovered, replacing any
/// previously recorded pair.
pub fn set_monitor_dimensions_web(ctx: &mut HostContext, width: u32, height: u32)
    ensures
        final(ctx).monitor_width == Some(width),
        final(ctx).monitor_height == Some(height),
        final(ctx).audio_ready == old(ctx).audio_ready,
{
    ctx.monitor_width = Some(width);
    ctx.monitor_height = Some(height);
}

/// The recorded display dimensions, if any.
pub fn get_monitor_dimensions(ctx: &HostContext) -> (dims: (Option<u32>, Option<u32>))
    ensures
        dims.0 == ctx.monitor_width,
        dims.1 == ctx.monitor_height,
{
    (ctx.monitor_width, ctx.monitor_height)
}

/// Mark the audio integration as brought up; bringing it up twice is
/// harmless and changes nothing further.
pub fn initialize_audio_integration(ctx: &mut HostContext)
    ensures
        final(ctx).audio_ready,
        final(ctx).monitor_width == old(ctx).monitor_width,
        final(ctx).monitor_height == old(ctx).monitor_height,
{
    ctx.audio_ready = true;
}

/// Bring up the text renderer. It keeps no host state, so there is nothing
/// to record: the context is returned untouched.
pub fn initialize_text_renderer(ctx: &mut HostContext)
    ensures
        *final(ctx) == *old(ctx),
{
}

} // verus!
