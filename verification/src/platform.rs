//! The platform layer as the engine sees it when no device is attached: a window that
//! takes a title, no input, silent audio and empty textures.
use vstd::prelude::*;

verus! {

/// A window.
pub struct Window;

impl Window {
    /// Sets the window title; the headless window keeps none.
    pub fn set_title(&mut self, _title: &str) {
    }
}

/// Opens a window; it always succeeds.
pub fn create_window() -> (r: Result<Window, String>)
    ensures
        r is Ok,
{
    Ok(Window)
}

/// The buttons held: none.
pub fn poll_input() -> (r: u32)
    ensures
        r == 0,
{
    0
}

/// Whether a named button is held: never.
pub fn is_button_pressed(_btn: &str) -> (r: bool)
    ensures
        !r,
{
    false
}

/// Starts audio; it always succeeds.
pub fn init_audio() -> (r: Result<(), String>)
    ensures
        r is Ok,
{
    Ok(())
}

/// Plays a sound; there is no output.
pub fn play_sound(_id: u32) {
}

/// Stops a sound; there is no output.
pub fn stop_sound(_id: u32) {
}

/// A texture handle.
pub struct Texture;

impl Texture {
    /// Width in pixels: 0.
    pub fn width(&self) -> (r: i32)
        ensures
            r == 0,
    {
        0
    }

    /// Height in pixels: 0.
    pub fn height(&self) -> (r: i32)
        ensures
            r == 0,
    {
        0
    }
}

/// Loads a texture; it always succeeds with an empty one.
pub fn load_texture(_path: &str) -> (r: Result<Texture, String>)
    ensures
        r is Ok,
{
    Ok(Texture)
}

} // verus!
