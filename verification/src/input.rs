//! Which keys and mouse buttons are held down, and the numbering of mouse
//! buttons handed to scripts.
//!
//! Keys are identified by their key-code number; pointer positions and
//! deltas, which are floating point, are tracked outside this module.

use vstd::prelude::*;
use std::collections::HashSet;
use vstd::std_specs::iter::IteratorSpec;

verus! {

broadcast use vstd::std_specs::hash::group_hash_axioms;

/// A mouse button.
#[derive(Clone, Copy, PartialEq, Eq, Structural)]
pub enum MouseButton {
    Left,
    Right,
    Middle,
    Back,
    Forward,
    /// Any other button, by its platform number.
    Other(u16),
}

/// Whether a key or button went down or came up.
#[derive(Clone, Copy, PartialEq, Eq, Structural)]
pub enum ElementState {
    Pressed,
    Released,
}

/// The number scripts use for a mouse button: 0 to 4 for the named buttons,
/// the low byte of the platform number for the others.
pub open spec fn script_button_number(b: MouseButton) -> u8 {
    match b {
        MouseButton::Left => 0,
        MouseButton::Right => 1,
        MouseButton::Middle => 2,
        MouseButton::Back => 3,
        MouseButton::Forward => 4,
        MouseButton::Other(id) => (id % 256) as u8,
    }
}

/// The script number of a mouse button.
pub fn script_button_id(b: MouseButton) -> (n: u8)
    ensures
        n == script_button_number(b),
{
    match b {
        MouseButton::Left => 0,
        MouseButton::Right => 1,
        MouseButton::Middle => 2,
        MouseButton::Back => 3,
        MouseButton::Forward => 4,
        MouseButton::Other(id) => (id % 256) as u8,
    }
}

/// Keys and mouse buttons currently held down.
pub struct PressedInputs {
    keys: HashSet<u32>,
    buttons: Vec<MouseButton>,
}

impl PressedInputs {
    /// Key codes held down.
    pub closed spec fn keys(&self) -> Set<u32> {
        self.keys@
    }

    /// Mouse buttons held down.
    pub closed spec fn buttons(&self) -> Set<MouseButton> {
        self.buttons@.to_set()
    }

    /// Each held button is listed once.
    pub closed spec fn wf(&self) -> bool {
        self.buttons@.no_duplicates()
    }

    /// Nothing held down.
    pub fn new() -> (p: PressedInputs)
        ensures
            p.wf(),
            p.keys() == Set::<u32>::empty(),
            p.buttons() == Set::<MouseButton>::empty(),
    {
        let p = PressedInputs { keys: HashSet::new(), buttons: Vec::new() };
        proof {
            assert(p.buttons() =~= Set::<MouseButton>::empty());
        }
        p
    }

    /// Records a key going down or coming up.
    pub fn handle_key(&mut self, key_code: u32, state: ElementState)
        ensures
            final(self).keys() == (match state {
                ElementState::Pressed => old(self).keys().insert(key_code),
                ElementState::Released => old(self).keys().remove(key_code),
            }),
            final(self).buttons() == old(self).buttons(),
            final(self).wf() == old(self).wf(),
    {
        match state {
            ElementState::Pressed => {
                self.keys.insert(key_code);
            },
            ElementState::Released => {
                self.keys.remove(&key_code);
            },
        }
    }

    /// Whether the key is held down.
    pub fn is_key_pressed(&self, key_code: u32) -> (r: bool)
        ensures
            r == self.keys().contains(key_code),
    {
        self.keys.contains(&key_code)
    }

    /// Position of `b` among the held buttons.
    fn find_button(&self, b: MouseButton) -> (r: Option<usize>)
        ensures
            match r {
                Some(i) => i < self.buttons.len() && self.buttons@[i as int] == b,
                None => !self.buttons@.contains(b),
            },
    {
        let mut i: usize = 0;
        while i < self.buttons.len()
            invariant
                i <= self.buttons.len(),
                forall|j: int| 0 <= j < i ==> self.buttons@[j] != b,
            decreases self.buttons.len() - i,
        {
            if self.buttons[i] == b {
                return Some(i);
            }
            i = i + 1;
        }
        None
    }

    /// Records a mouse button going down or coming up.
    pub fn handle_mouse_button(&mut self, button: MouseButton, state: ElementState)
        requires
            old(self).wf(),
        ensures
            final(self).wf(),
            final(self).buttons() == (match state {
                ElementState::Pressed => old(self).buttons().insert(button),
                ElementState::Released => old(self).buttons().remove(button),
            }),
            final(self).keys() == old(self).keys(),
    {
        let ghost before = self.buttons@;
        match state {
            ElementState::Pressed => {
                if self.find_button(button).is_none() {
                    self.buttons.push(button);
                    proof {
                        before.lemma_push_to_set_commute(button);
                        assert forall|a: int, b: int| 0 <= a < b < self.buttons@.len() implies
                            self.buttons@[a] != self.buttons@[b] by {
                            if b == before.len() {
                                assert(before[a] == self.buttons@[a]);
                            }
                        }
                    }
                } else {
                    proof {
                        assert(before.to_set().insert(button) =~= before.to_set());
                    }
                }
            },
            ElementState::Released => {
                match self.find_button(button) {
                    Some(i) => {
                        self.buttons.remove(i);
                        proof {
                            assert(self.buttons@ =~= before.remove(i as int));
                            assert forall|m: MouseButton| self.buttons@.contains(m) <==> before.to_set().remove(button).contains(m) by {
                                if self.buttons@.contains(m) {
                                    let k = choose|k: int| 0 <= k < self.buttons@.len() && self.buttons@[k] == m;
                                    if k < i {
                                        assert(before[k] == m);
                                    } else {
                                        assert(before[k + 1] == m);
                                    }
                                }
                                if before.contains(m) && m != button {
                                    let k = choose|k: int| 0 <= k < before.len() && before[k] == m;
                                    if k < i {
                                        assert(self.buttons@[k] == m);
                                    } else {
                                        assert(self.buttons@[k - 1] == m);
                                    }
                                }
                            }
                            assert(self.buttons@.to_set() =~= before.to_set().remove(button));
                        }
                    },
                    None => {
                        proof {
                            assert(before.to_set().remove(button) =~= before.to_set());
                        }
                    },
                }
            },
        }
    }

    /// Whether the mouse button is held down.
    pub fn is_mouse_button_pressed(&self, button: MouseButton) -> (r: bool)
        ensures
            r == self.buttons().contains(button),
    {
        self.find_button(button).is_some()
    }

    /// The held key codes, each once.
    pub fn pressed_keys(&self) -> (r: Vec<u32>)
        ensures
            r@.to_set() == self.keys(),
            r@.no_duplicates(),
    {
        let mut r: Vec<u32> = Vec::new();
        let ghost all = self.keys.iter().remaining().unref();
        for k in it: self.keys.iter()
            invariant
                it.seq().unref() == all,
                all.to_set() == self.keys@,
                all.no_duplicates(),
                r@ == all.take(it.index()),
        {
            proof {
                assert(all.take(it.index() + 1) =~= r@.push(*k));
            }
            r.push(*k);
        }
        proof {
            assert(r@ =~= all);
        }
        r
    }

    /// The script numbers of the held mouse buttons, each number once.
    pub fn pressed_button_ids(&self) -> (r: Vec<u8>)
        ensures
            r@.to_set() == self.buttons().map(|b: MouseButton| script_button_number(b)),
            r@.no_duplicates(),
    {
        let mut r: Vec<u8> = Vec::new();
        let mut i: usize = 0;
        while i < self.buttons.len()
            invariant
                i <= self.buttons.len(),
                r@.no_duplicates(),
                r@.to_set() == self.buttons@.take(i as int).to_set().map(|b: MouseButton| script_button_number(b)),
            decreases self.buttons.len() - i,
        {
            let n = script_button_id(self.buttons[i]);
            let ghost before = r@;
            let ghost t0 = self.buttons@.take(i as int);
            proof {
                assert(self.buttons@.take(i + 1) =~= t0.push(self.buttons@[i as int]));
                t0.lemma_push_to_set_commute(self.buttons@[i as int]);
            }
            if !holds_byte(&r, n) {
                r.push(n);
                proof {
                    before.lemma_push_to_set_commute(n);
                    assert forall|a: int, b: int| 0 <= a < b < r@.len() implies r@[a] != r@[b] by {
                        if b == before.len() {
                            assert(before[a] == r@[a]);
                        }
                    }
                }
            }
            proof {
                let b = self.buttons@[i as int];
                let s0 = t0.to_set();
                let s1 = self.buttons@.take(i + 1).to_set();
                assert(s1 == s0.insert(b));
                let image = s1.map(|x: MouseButton| script_button_number(x));
                assert forall|m: u8| r@.to_set().contains(m) <==> #[trigger] image.contains(m) by {
                    if image.contains(m) {
                        let x = choose|x: MouseButton| s1.contains(x) && script_button_number(x) == m;
                        if x != b {
                            assert(s0.contains(x));
                            assert(s0.map(|x: MouseButton| script_button_number(x)).contains(m));
                            assert(before.to_set().contains(m));
                        }
                    }
                    if r@.to_set().contains(m) {
                        if m == n {
                            assert(s1.contains(b));
                        } else {
                            assert(before.to_set().contains(m));
                            assert(s0.map(|x: MouseButton| script_button_number(x)).contains(m));
                            let x = choose|x: MouseButton| s0.contains(x) && script_button_number(x) == m;
                            assert(s1.contains(x));
                        }
                    }
                }
                assert(r@.to_set() =~= image);
            }
            i = i + 1;
        }
        proof {
            assert(self.buttons@.take(i as int) =~= self.buttons@);
        }
        r
    }
}

/// A key or button that went down is held until it comes up again, and
/// once up it is not held, whatever happened before.
pub proof fn lemma_press_then_release<T>(held: Set<T>, k: T)
    ensures
        held.insert(k).contains(k),
        !held.insert(k).remove(k).contains(k),
        !held.remove(k).contains(k),
{
}

/// Whether `v` holds `n`.
fn holds_byte(v: &Vec<u8>, n: u8) -> (r: bool)
    ensures
        r == v@.contains(n),
{
    let mut i: usize = 0;
    while i < v.len()
        invariant
            i <= v.len(),
            forall|j: int| 0 <= j < i ==> v@[j] != n,
        decreases v.len() - i,
    {
        if v[i] == n {
            return true;
        }
        i = i + 1;
    }
    false
}

} // verus!
