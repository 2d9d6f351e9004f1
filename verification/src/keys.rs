//! The keys a player holds or has just pressed in the current frame.
use vstd::prelude::*;
use core::marker::PhantomData;

verus! {

/// The keys of the player marked by `T`, as read at the start of a frame.
pub struct KeyResource<T> {
    pub down: bool,
    pub left: bool,
    pub right: bool,
    pub just_left: bool,
    pub just_right: bool,
    pub just_rot_r: bool,
    pub just_rot_l: bool,
    pub phantom: PhantomData<T>,
}

impl<T> KeyResource<T> {
    /// No key held or pressed.
    pub fn new() -> (k: KeyResource<T>)
        ensures
            !k.down && !k.left && !k.right && !k.just_left && !k.just_right && !k.just_rot_r
                && !k.just_rot_l,
    {
        KeyResource {
            down: false,
            left: false,
            right: false,
            just_left: false,
            just_right: false,
            just_rot_r: false,
            just_rot_l: false,
            phantom: PhantomData,
        }
    }

    /// Releases every key.
    pub fn reset(&mut self)
        ensures
            !final(self).down && !final(self).left && !final(self).right && !final(self).just_left
                && !final(self).just_right && !final(self).just_rot_r && !final(self).just_rot_l,
    {
        self.down = false;
        self.left = false;
        self.right = false;
        self.just_left = false;
        self.just_right = false;
        self.just_rot_r = false;
        self.just_rot_l = false;
    }
}

/// A key of the keyboard, as the field settings name it by number.
#[derive(PartialEq, Eq, Structural, Clone, Copy, Debug)]
pub enum KeyName {
    X,
    Z,
    Left,
    Up,
    Right,
    Down,
    F24,
}

/// The key that a number of the field settings stands for; numbers that
/// stand for no key give `F24`, a key nobody presses.
pub fn u32_to_keycode(n: u32) -> (k: KeyName)
    ensures
        k == (if n == 33 {
            KeyName::X
        } else if n == 35 {
            KeyName::Z
        } else if n == 70 {
            KeyName::Left
        } else if n == 71 {
            KeyName::Up
        } else if n == 72 {
            KeyName::Right
        } else if n == 73 {
            KeyName::Down
        } else {
            KeyName::F24
        }),
{
    match n {
        33 => KeyName::X,
        35 => KeyName::Z,
        70 => KeyName::Left,
        71 => KeyName::Up,
        72 => KeyName::Right,
        73 => KeyName::Down,
        _ => KeyName::F24,
    }
}

} // verus!
