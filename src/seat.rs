use vstd::prelude::*;

verus! {

/// Whether a key went down or came up.
#[derive(Clone, Copy, Debug, PartialEq, Eq, Structural)]
pub enum KeyState {
    Released,
    Pressed,
}

/// Per-seat input state: the keys held down.
pub struct SeatState {
    pressed_keys: Vec<u32>,
}

impl View for SeatState {
    type V = Set<u32>;

    closed spec fn view(&self) -> Set<u32> {
        self.pressed_keys@.to_set()
    }
}

impl SeatState {
    pub closed spec fn wf(&self) -> bool {
        self.pressed_keys@.no_duplicates()
    }

    pub fn new() -> (r: SeatState)
        ensures
            r@ == Set::<u32>::empty(),
            r.wf(),
    {
        let r = SeatState { pressed_keys: Vec::new() };
        proof {
            assert(r@ =~= Set::<u32>::empty());
        }
        r
    }

    fn position(&self, keysym: u32) -> (r: Option<usize>)
        ensures
            r matches Some(i) ==> i < self.pressed_keys@.len() && self.pressed_keys@[i as int]
                == keysym,
            r is None ==> !self.pressed_keys@.contains(keysym),
    {
        let mut i: usize = 0;
        while i < self.pressed_keys.len()
            invariant
                0 <= i <= self.pressed_keys@.len(),
                forall|k: int| 0 <= k < i ==> self.pressed_keys@[k] != keysym,
            decreases self.pressed_keys@.len() - i,
        {
            if self.pressed_keys[i] == keysym {
                return Some(i);
            }
            i = i + 1;
        }
        None
    }

    /// Whether `keysym` is held down.
    pub fn is_pressed(&self, keysym: u32) -> (r: bool)
        ensures
            r == self@.contains(keysym),
    {
        self.position(keysym).is_some()
    }

    /// Records a key going down or coming up.
    pub fn update_pressed_keys(&mut self, keysym: u32, state: KeyState)
        requires
            old(self).wf(),
        ensures
            final(self)@ == (match state {
                KeyState::Pressed => old(self)@.insert(keysym),
                KeyState::Released => old(self)@.remove(keysym),
            }),
            final(self).wf(),
    {
        let ghost before = self.pressed_keys@;
        match (state, self.position(keysym)) {
            (KeyState::Pressed, None) => {
                self.pressed_keys.push(keysym);
                proof {
                    assert(self.pressed_keys@.to_set() =~= before.to_set().insert(keysym)) by {
                        assert forall|x: u32| self.pressed_keys@.contains(x) <==> (before.contains(x) || x == keysym) by {
                            if self.pressed_keys@.contains(x) {
                                let k = choose|k: int| 0 <= k < self.pressed_keys@.len() && self.pressed_keys@[k] == x;
                                if k < before.len() {
                                    assert(before[k] == x);
                                }
                            }
                            if before.contains(x) {
                                let k = choose|k: int| 0 <= k < before.len() && before[k] == x;
                                assert(self.pressed_keys@[k] == x);
                            }
                            assert(self.pressed_keys@[before.len() as int] == keysym);
                        }
                    }
                }
            },
            (KeyState::Pressed, Some(_)) => {
                proof {
                    assert(before.contains(keysym));
                    assert(before.to_set() =~= before.to_set().insert(keysym));
                }
            },
            (KeyState::Released, None) => {
                proof {
                    assert(before.to_set() =~= before.to_set().remove(keysym));
                }
            },
            (KeyState::Released, Some(i)) => {
                self.pressed_keys.remove(i);
                proof {
                    before.remove_ensures(i as int);
                    let now = self.pressed_keys@;
                    assert forall|x: u32| now.contains(x) <==> (before.contains(x) && x != keysym) by {
                        if now.contains(x) {
                            let k = choose|k: int| 0 <= k < now.len() && now[k] == x;
                            let k2 = if k < i { k } else { k + 1 };
                            assert(before[k2] == x);
                            assert(k2 != i);
                        }
                        if before.contains(x) && x != keysym {
                            let k = choose|k: int| 0 <= k < before.len() && before[k] == x;
                            if k < i {
                                assert(now[k] == x);
                            } else {
                                assert(k != i);
                                assert(now[k - 1] == x);
                            }
                        }
                    }
                    assert(now.to_set() =~= before.to_set().remove(keysym));
                    assert forall|a: int, b: int|
                        0 <= a < now.len() && 0 <= b < now.len() && a != b implies now[a] != now[b] by {
                        let a2 = if a < i { a } else { a + 1 };
                        let b2 = if b < i { b } else { b + 1 };
                        assert(now[a] == before[a2]);
                        assert(now[b] == before[b2]);
                    }
                }
            },
        }
    }
}

} // verus!
