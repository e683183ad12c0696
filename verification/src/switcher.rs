//! Selection logic of the theme switcher overlay: an openable list with a
//! selected entry, scrolled by whole rows so the selection stays visible.
//! The host owns rendering and the clock; it hands in the candidate list,
//! key events and a millisecond timestamp, and reads the state back to draw
//! it.

use vstd::prelude::*;

verus! {

/// The keys the switcher reacts to.
#[derive(Clone, Copy, PartialEq, Eq, Structural, Debug)]
pub enum Key {
    Up,
    Down,
    Enter,
    Escape,
}

/// A page-wise movement.
#[derive(Clone, Copy, PartialEq, Eq, Structural, Debug)]
pub enum Page {
    Up,
    Down,
}

/// What a key did: nothing, a moved selection, a closed overlay, or a theme
/// name to apply.
#[derive(Debug)]
pub enum Action {
    Nothing,
    Moved,
    Close,
    Apply(String),
}

/// The mathematical image of an `Action`.
#[verifier::ext_equal]
pub enum ActionV {
    Nothing,
    Moved,
    Close,
    Apply(Seq<char>),
}

impl View for Action {
    type V = ActionV;

    open spec fn view(&self) -> ActionV {
        match self {
            Action::Nothing => ActionV::Nothing,
            Action::Moved => ActionV::Moved,
            Action::Close => ActionV::Close,
            Action::Apply(s) => ActionV::Apply(s@),
        }
    }
}

/// Rows visible in the overlay under its default layout.
pub const DEFAULT_OVERLAY_ROWS: usize = 12;

/// Repeated toggles within this many milliseconds are ignored.
pub const TOGGLE_DEBOUNCE_MS: u64 = 120;

/// The first visible row: the scroll position, capped so the window of
/// `max_rows` rows never runs past the end of the list.
pub open spec fn top_index_v(scroll: nat, len: nat, max_rows: nat) -> nat {
    let max_top: nat = if len > max_rows {
        (len - max_rows) as nat
    } else {
        0
    };
    if scroll > max_top {
        max_top
    } else {
        scroll
    }
}

/// The scroll position after snapping a window of `max_rows` rows so that
/// row `sel` is inside it, clamped to the list (`len > 0`).
pub open spec fn snap_v(scroll: nat, sel: nat, len: nat, max_rows: nat) -> nat {
    let top = top_index_v(scroll, len, max_rows);
    let bottom = (top + max_rows - 1) as int;
    let moved: int = if sel < top {
        scroll - top + sel
    } else if sel > bottom {
        scroll + sel - bottom
    } else {
        scroll as int
    };
    let cap: int = len - 1;
    if moved > cap {
        cap as nat
    } else {
        moved as nat
    }
}

/// The theme switcher overlay: whether it is shown, the candidate themes,
/// the selected index, the scroll position in whole rows, and the time of
/// the last toggle.
pub struct ThemeSwitcher {
    pub opened: bool,
    pub items: Vec<String>,
    pub selected: usize,
    pub scroll: usize,
    pub last_toggle_ms: u64,
}

impl ThemeSwitcher {
    /// Internal consistency: while the overlay is shown the list is not
    /// empty, the selection is on it, and the scroll position is inside it.
    pub open spec fn wf(&self) -> bool {
        self.opened ==> {
            &&& self.items@.len() > 0
            &&& (self.selected as nat) < self.items@.len()
            &&& (self.scroll as nat) <= self.items@.len() - 1
        }
    }

    /// A fresh, closed switcher with no items.
    pub fn new() -> (s: ThemeSwitcher)
        ensures
            !s.opened,
            s.items@.len() == 0,
            s.selected == 0,
            s.scroll == 0,
            s.last_toggle_ms == 0,
            s.wf(),
    {
        ThemeSwitcher { opened: false, items: Vec::new(), selected: 0, scroll: 0, last_toggle_ms: 0 }
    }

    /// Whether the overlay is shown.
    pub fn is_open(&self) -> (r: bool)
        ensures
            r == self.opened,
    {
        self.opened
    }

    /// The selected theme name, when the selection is on the list.
    pub fn current(&self) -> (r: Option<&str>)
        ensures
            (self.selected as nat) < self.items@.len() ==> (r matches Some(s) && s@
                == self.items@[self.selected as int]@),
            (self.selected as nat) >= self.items@.len() ==> r is None,
    {
        if self.selected < self.items.len() {
            Some(self.items[self.selected].as_str())
        } else {
            None
        }
    }

    /// Cap the scroll position at the end of the list and pull the window
    /// over the selection, as `snap_v` states.
    fn snap_to_selection(&mut self, max_rows: usize)
        requires
            max_rows >= 1,
            old(self).items@.len() > 0,
            (old(self).selected as nat) < old(self).items@.len(),
        ensures
            final(self).scroll as nat == snap_v(
                old(self).scroll as nat,
                old(self).selected as nat,
                old(self).items@.len(),
                max_rows as nat,
            ),
            *final(self) == (ThemeSwitcher { scroll: final(self).scroll, ..*old(self) }),
    {
        let len = self.items.len();
        let max_top = if len > max_rows {
            len - max_rows
        } else {
            0
        };
        let top = if self.scroll > max_top {
            max_top
        } else {
            self.scroll
        };
        let sel = self.selected;
        let moved: usize = if sel < top {
            (self.scroll - top) + sel
        } else if sel > top && sel - top > max_rows - 1 {
            // the selection lies below the window; the window then cannot
            // already be pushed against the end of the list, so the scroll
            // position was not capped
            proof {
                assert(top == self.scroll) by {
                    if top != self.scroll {
                        if len > max_rows {
                            assert(top == len - max_rows);
                            assert(sel <= top + (max_rows - 1));
                        } else {
                            assert(top == 0);
                            assert(sel <= max_rows - 1);
                        }
                    }
                }
            }
            sel - (max_rows - 1)
        } else {
            self.scroll
        };
        let cap = len - 1;
        self.scroll = if moved > cap {
            cap
        } else {
            moved
        };
    }

    /// Show the overlay for these candidates: an empty list closes it;
    /// otherwise the selection is clamped onto the list, the overlay opens,
    /// and the window snaps over the selection under the default layout.
    pub fn open_with(&mut self, items: Vec<String>)
        ensures
            items@.len() == 0 ==> *final(self) == (ThemeSwitcher {
                opened: false,
                items: items,
                ..*old(self)
            }),
            items@.len() > 0 ==> {
                &&& final(self).opened
                &&& final(self).items == items
                &&& final(self).selected as nat == (if (old(self).selected as nat) < items@.len() {
                    old(self).selected as nat
                } else {
                    (items@.len() - 1) as nat
                })
                &&& final(self).scroll as nat == snap_v(
                    old(self).scroll as nat,
                    final(self).selected as nat,
                    items@.len(),
                    DEFAULT_OVERLAY_ROWS as nat,
                )
                &&& final(self).last_toggle_ms == old(self).last_toggle_ms
            },
            final(self).wf(),
    {
        self.items = items;
        if self.items.len() == 0 {
            self.opened = false;
            return;
        }
        let last = self.items.len() - 1;
        if self.selected > last {
            self.selected = last;
        }
        self.opened = true;
        self.snap_to_selection(DEFAULT_OVERLAY_ROWS);
    }

    /// Toggle the overlay at time `now_ms` with these candidates: a toggle
    /// within the debounce window of the previous one is ignored; otherwise
    /// an open overlay closes, and a closed one opens on the candidates as
    /// `open_with` states. The clock must not run backwards.
    pub fn toggle(&mut self, now_ms: u64, items: Vec<String>)
        requires
            old(self).last_toggle_ms <= now_ms,
            old(self).wf(),
        ensures
            now_ms - old(self).last_toggle_ms < TOGGLE_DEBOUNCE_MS ==> *final(self) == *old(self),
            now_ms - old(self).last_toggle_ms >= TOGGLE_DEBOUNCE_MS && old(self).opened ==> *final(self) == (ThemeSwitcher {
                opened: false,
                last_toggle_ms: now_ms,
                ..*old(self)
            }),
            now_ms - old(self).last_toggle_ms >= TOGGLE_DEBOUNCE_MS && !old(self).opened ==> {
                &&& final(self).last_toggle_ms == now_ms
                &&& (items@.len() == 0 ==> *final(self) == (ThemeSwitcher {
                    opened: false,
                    items: items,
                    last_toggle_ms: now_ms,
                    ..*old(self)
                }))
                &&& (items@.len() > 0 ==> {
                    &&& final(self).opened
                    &&& final(self).items == items
                    &&& final(self).selected as nat == (if (old(self).selected as nat)
                        < items@.len() {
                        old(self).selected as nat
                    } else {
                        (items@.len() - 1) as nat
                    })
                    &&& final(self).scroll as nat == snap_v(
                        old(self).scroll as nat,
                        final(self).selected as nat,
                        items@.len(),
                        DEFAULT_OVERLAY_ROWS as nat,
                    )
                })
            },
            final(self).wf(),
    {
        if now_ms - self.last_toggle_ms < TOGGLE_DEBOUNCE_MS {
            return;
        }
        self.last_toggle_ms = now_ms;
        if self.opened {
            self.opened = false;
        } else {
            self.open_with(items);
        }
    }

    /// Move the selection `n` rows up, stopping at the top, and snap the
    /// window.
    fn move_up(&mut self, n: usize)
        requires
            old(self).wf(),
            old(self).opened,
        ensures
            final(self).selected as nat == (if old(self).selected >= n {
                old(self).selected - n
            } else {
                0
            }),
            final(self).scroll as nat == snap_v(
                old(self).scroll as nat,
                final(self).selected as nat,
                old(self).items@.len(),
                DEFAULT_OVERLAY_ROWS as nat,
            ),
            *final(self) == (ThemeSwitcher {
                selected: final(self).selected,
                scroll: final(self).scroll,
                ..*old(self)
            }),
            final(self).wf(),
    {
        self.selected = if self.selected >= n {
            self.selected - n
        } else {
            0
        };
        self.snap_to_selection(DEFAULT_OVERLAY_ROWS);
    }

    /// Move the selection `n` rows down, stopping at the last row, and snap
    /// the window.
    fn move_down(&mut self, n: usize)
        requires
            old(self).wf(),
            old(self).opened,
            n <= 0xFFFF,
        ensures
            final(self).selected as nat == (if old(self).selected + n < old(self).items@.len() {
                old(self).selected + n
            } else {
                old(self).items@.len() - 1
            }),
            final(self).scroll as nat == snap_v(
                old(self).scroll as nat,
                final(self).selected as nat,
                old(self).items@.len(),
                DEFAULT_OVERLAY_ROWS as nat,
            ),
            *final(self) == (ThemeSwitcher {
                selected: final(self).selected,
                scroll: final(self).scroll,
                ..*old(self)
            }),
            final(self).wf(),
    {
        let last = self.items.len() - 1;
        self.selected = if n <= last && self.selected < last - n + 1 {
            self.selected + n
        } else {
            last
        };
        self.snap_to_selection(DEFAULT_OVERLAY_ROWS);
    }

    /// React to a key: nothing while closed; escape closes, enter closes
    /// and yields the selected name to apply, up and down move the
    /// selection one row.
    pub fn handle_key(&mut self, key: Key) -> (r: Action)
        requires
            old(self).wf(),
        ensures
            final(self).wf(),
            !old(self).opened ==> *final(self) == *old(self) && r@ == ActionV::Nothing,
            old(self).opened ==> match key {
                Key::Escape => *final(self) == (ThemeSwitcher { opened: false, ..*old(self) }) && r@
                    == ActionV::Close,
                Key::Enter => *final(self) == (ThemeSwitcher { opened: false, ..*old(self) }) && r@
                    == ActionV::Apply(old(self).items@[old(self).selected as int]@),
                Key::Up => r@ == ActionV::Moved && final(self).selected as nat == (if old(
                    self,
                ).selected >= 1 {
                    old(self).selected - 1
                } else {
                    0
                }) && final(self).scroll as nat == snap_v(
                    old(self).scroll as nat,
                    final(self).selected as nat,
                    old(self).items@.len(),
                    DEFAULT_OVERLAY_ROWS as nat,
                ) && *final(self) == (ThemeSwitcher {
                    selected: final(self).selected,
                    scroll: final(self).scroll,
                    ..*old(self)
                }),
                Key::Down => r@ == ActionV::Moved && final(self).selected as nat == (if old(
                    self,
                ).selected + 1 < old(self).items@.len() {
                    old(self).selected + 1
                } else {
                    old(self).items@.len() - 1
                }) && final(self).scroll as nat == snap_v(
                    old(self).scroll as nat,
                    final(self).selected as nat,
                    old(self).items@.len(),
                    DEFAULT_OVERLAY_ROWS as nat,
                ) && *final(self) == (ThemeSwitcher {
                    selected: final(self).selected,
                    scroll: final(self).scroll,
                    ..*old(self)
                }),
            },
    {
        if !self.opened {
            return Action::Nothing;
        }
        match key {
            Key::Escape => {
                self.opened = false;
                Action::Close
            },
            Key::Enter => {
                self.opened = false;
                let name = if self.selected < self.items.len() {
                    self.items[self.selected].clone()
                } else {
                    String::new()
                };
                Action::Apply(name)
            },
            Key::Up => {
                self.move_up(1);
                Action::Moved
            },
            Key::Down => {
                self.move_down(1);
                Action::Moved
            },
        }
    }

    /// React to a page key: nothing while closed; otherwise the selection
    /// jumps one window (the default layout's rows less one) up or down.
    pub fn handle_key_page(&mut self, pg: Page) -> (r: Action)
        requires
            old(self).wf(),
        ensures
            final(self).wf(),
            !old(self).opened ==> *final(self) == *old(self) && r@ == ActionV::Nothing,
            old(self).opened ==> r@ == ActionV::Moved && final(self).selected as nat == (match pg {
                Page::Up => if old(self).selected >= DEFAULT_OVERLAY_ROWS - 1 {
                    (old(self).selected - (DEFAULT_OVERLAY_ROWS - 1)) as nat
                } else {
                    0nat
                },
                Page::Down => if old(self).selected + (DEFAULT_OVERLAY_ROWS - 1) < old(
                    self,
                ).items@.len() {
                    (old(self).selected + (DEFAULT_OVERLAY_ROWS - 1)) as nat
                } else {
                    (old(self).items@.len() - 1) as nat
                },
            }) && final(self).scroll as nat == snap_v(
                old(self).scroll as nat,
                final(self).selected as nat,
                old(self).items@.len(),
                DEFAULT_OVERLAY_ROWS as nat,
            ) && *final(self) == (ThemeSwitcher {
                selected: final(self).selected,
                scroll: final(self).scroll,
                ..*old(self)
            }),
    {
        if !self.opened {
            return Action::Nothing;
        }
        match pg {
            Page::Up => {
                self.move_up(DEFAULT_OVERLAY_ROWS - 1);
                Action::Moved
            },
            Page::Down => {
                self.move_down(DEFAULT_OVERLAY_ROWS - 1);
                Action::Moved
            },
        }
    }

    /// The first visible row under a layout of `max_rows` rows, as
    /// `top_index_v` states.
    pub fn visible_top_index(&self, max_rows: usize) -> (r: usize)
        ensures
            r as nat == top_index_v(self.scroll as nat, self.items@.len(), max_rows as nat),
    {
        let len = self.items.len();
        let max_top = if len > max_rows {
            len - max_rows
        } else {
            0
        };
        if self.scroll > max_top {
            max_top
        } else {
            self.scroll
        }
    }
}

} // verus!
