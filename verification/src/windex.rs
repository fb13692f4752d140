use crate::client::{last_index, Client, ClientRef, ClientRegistry, Geometry};
use crate::config::{Config, Functions, Key, MOD};
use crate::drag::{DragState, MOVE_BUTTON, RESIZE_BUTTON};
use crate::event::{Command, ConfigureRequest, Event, Grab};
use crate::keys::{bound_actions, detect_numlock, normalize_modifiers, normalized, numlock_scan, resolve, LOCK};
use crate::layout::{center, centered, centered_on};
use crate::xproto::{lock_mask, mapping_keyboard, mapping_modifier, mod1_mask};
use vstd::prelude::*;

verus! {

/// The state of the window manager: the screen's size, the active workspace,
/// the modifier bit of Num Lock, the key bindings, the managed windows and
/// the drag in progress, if any.
pub struct Windex<'a> {
    pub display_width: i32,
    pub display_height: i32,
    pub workspace: u8,
    pub numlock: u32,
    pub config: Config<'a>,
    pub clients: ClientRegistry,
    pub drag: Option<DragState>,
}

/// The window of the focused client of `clients`, if one is focused.
pub open spec fn focused_window(clients: ClientRegistry) -> Option<u64> {
    match clients.spec_focused() {
        Some(r) => Some(clients.clients()[clients.position(r)].window),
        None => None,
    }
}

/// Whether `a` and `b` hold the same clients under the same handles in the
/// same order, with the same focus.
pub open spec fn same_clients(a: ClientRegistry, b: ClientRegistry) -> bool {
    &&& a.refs() == b.refs()
    &&& a.clients() == b.clients()
    &&& a.spec_focused() == b.spec_focused()
}

/// What one action of a binding asks for: a launch, or the closing of the
/// focused window, which asks for nothing when no window is focused.
pub open spec fn action_commands<'a>(action: Functions<'a>, focus: Option<u64>) -> Seq<
    Command<'a>,
> {
    match action {
        Functions::Run(command, args) => seq![Command::Spawn { command, args }],
        Functions::WindowKill => match focus {
            Some(window) => seq![Command::Kill { window }],
            None => Seq::empty(),
        },
    }
}

/// What a sequence of actions asks for, action by action, in order.
pub open spec fn actions_commands<'a>(actions: Seq<Functions<'a>>, focus: Option<u64>) -> Seq<
    Command<'a>,
>
    decreases actions.len(),
{
    if actions.len() == 0 {
        Seq::empty()
    } else {
        actions_commands(actions.drop_last(), focus) + action_commands(actions.last(), focus)
    }
}

impl<'a> Windex<'a> {
    /// The invariant of the state: the client registry is well formed.
    pub open spec fn wf(&self) -> bool {
        self.clients.wf()
    }

    /// Whether `pre` and `post` agree in everything but the clients and the
    /// drag.
    pub open spec fn same_setup(pre: Self, post: Self) -> bool {
        &&& post.display_width == pre.display_width
        &&& post.display_height == pre.display_height
        &&& post.workspace == pre.workspace
        &&& post.numlock == pre.numlock
        &&& post.config == pre.config
    }

    /// A window manager for a screen of the given size, with no client, no
    /// drag in progress, the first workspace active and no Num Lock bit known.
    pub fn new(display_width: i32, display_height: i32, config: Config<'a>) -> (wm: Self)
        ensures
            wm.wf(),
            wm.display_width == display_width,
            wm.display_height == display_height,
            wm.workspace == 1,
            wm.numlock == 0,
            wm.config == config,
            wm.drag.is_none(),
            wm.clients.refs() == Seq::<ClientRef>::empty(),
            wm.clients.clients() == Seq::<Client>::empty(),
            wm.clients.spec_focused().is_none(),
    {
        Windex {
            display_width,
            display_height,
            workspace: 1,
            numlock: 0,
            config,
            clients: ClientRegistry::new(),
            drag: None,
        }
    }

    /// A modifier mask without the lock modifiers, restricted to the
    /// recognised bits.
    pub fn mod_clean(&self, mask: u32) -> (clean: u32)
        ensures
            clean == normalized(mask, self.numlock),
    {
        normalize_modifiers(mask, self.numlock)
    }

    /// What a button press does: over a window it starts a drag from the
    /// pointer's position and the window's geometry and raises the window;
    /// over no window it does nothing.
    pub open spec fn button_press_effect(
        pre: Self,
        post: Self,
        out: Seq<Command<'a>>,
        subwindow: u64,
        button: u32,
        x_root: i32,
        y_root: i32,
        geometry: Geometry,
    ) -> bool {
        &&& Self::same_setup(pre, post)
        &&& post.clients == pre.clients
        &&& if subwindow != 0 {
            &&& post.drag == Some(
                DragState { button, subwindow, x_root, y_root, origin: geometry },
            )
            &&& out == seq![Command::Raise { window: subwindow }]
        } else {
            &&& post.drag == pre.drag
            &&& out == Seq::<Command<'a>>::empty()
        }
    }

    /// Handles a button press.
    pub fn button_press(
        &mut self,
        subwindow: u64,
        button: u32,
        x_root: i32,
        y_root: i32,
        geometry: Geometry,
    ) -> (out: Vec<Command<'a>>)
        ensures
            Self::button_press_effect(
                *old(self),
                *final(self),
                out@,
                subwindow,
                button,
                x_root,
                y_root,
                geometry,
            ),
    {
        let mut out: Vec<Command<'a>> = Vec::new();
        if subwindow != 0 {
            self.drag = Some(DragState::new(button, subwindow, x_root, y_root, geometry));
            out.push(Command::Raise { window: subwindow });
        }
        out
    }

    /// A button release ends the drag and asks for nothing.
    pub fn button_release(&mut self)
        ensures
            Self::same_setup(*old(self), *final(self)),
            final(self).clients == old(self).clients,
            final(self).drag.is_none(),
    {
        self.drag = None;
    }

    /// A configure request is passed on as it stands.
    pub fn configure_request(&self, request: ConfigureRequest) -> (out: Vec<Command<'a>>)
        ensures
            out@ == seq![Command::Configure(request)],
    {
        let mut out: Vec<Command<'a>> = Vec::new();
        out.push(Command::Configure(request));
        out
    }

    /// What a change of mapping asks for: where it concerns the keyboard or
    /// the modifiers, to take the new mapping over and to grab anew; nothing
    /// otherwise.
    pub open spec fn mapping_commands(request: i32) -> Seq<Command<'a>> {
        if request == 1 || request == 0 {
            seq![Command::RefreshMapping, Command::Regrab]
        } else {
            Seq::empty()
        }
    }

    /// Handles a change of the keyboard, modifier or pointer mapping.
    pub fn mapping_notify(&self, request: i32) -> (out: Vec<Command<'a>>)
        ensures
            out@ == Self::mapping_commands(request),
    {
        let mut out: Vec<Command<'a>> = Vec::new();
        if request == mapping_keyboard() || request == mapping_modifier() {
            out.push(Command::RefreshMapping);
            out.push(Command::Regrab);
        }
        out
    }

    /// What a key press asks for: the commands of every binding that matches
    /// the chord, in the order of the table.
    pub open spec fn key_press_commands(&self, keysym: u64, state: u32) -> Seq<Command<'a>> {
        actions_commands(
            bound_actions(self.config.keys@, keysym, state, self.numlock),
            focused_window(self.clients),
        )
    }

    /// Handles a key press.
    pub fn key_press(&self, keysym: u64, state: u32) -> (out: Vec<Command<'a>>)
        requires
            self.wf(),
        ensures
            out@ == self.key_press_commands(keysym, state),
    {
        let actions = resolve(&self.config.keys, keysym, state, self.numlock);
        let focus: Option<u64> = match self.clients.focused() {
            Some(r) => match self.clients.get(r) {
                Some(c) => Some(c.window),
                None => None,
            },
            None => None,
        };
        let mut out: Vec<Command<'a>> = Vec::new();
        let mut i: usize = 0;
        while i < actions.len()
            invariant
                i <= actions@.len(),
                focus == focused_window(self.clients),
                out@ == actions_commands(actions@.take(i as int), focus),
            decreases actions@.len() - i,
        {
            proof {
                assert(actions@.take(i + 1).drop_last() =~= actions@.take(i as int));
                assert(actions@.take(i + 1).last() == actions@[i as int]);
            }
            match actions[i] {
                Functions::Run(command, args) => {
                    out.push(Command::Spawn { command, args });
                },
                Functions::WindowKill => {
                    if let Some(window) = focus {
                        out.push(Command::Kill { window });
                    }
                },
            }
            proof {
                assert(out@ =~= actions_commands(actions@.take(i as int), focus) + action_commands(
                    actions@[i as int],
                    focus,
                ));
            }
            i += 1;
        }
        proof {
            assert(actions@.take(actions@.len() as int) =~= actions@);
        }
        out
    }

    /// Takes `window` into the registry, at the tail.
    pub fn win_add(&mut self, window: u64) -> (r: ClientRef)
        requires
            old(self).wf(),
        ensures
            final(self).wf(),
            Self::same_setup(*old(self), *final(self)),
            final(self).drag == old(self).drag,
            !old(self).clients.refs().contains(r),
            final(self).clients.refs() == old(self).clients.refs().push(r),
            final(self).clients.clients() == old(self).clients.clients().push(
                Client::fresh(window),
            ),
            final(self).clients.spec_focused() == old(self).clients.spec_focused(),
    {
        self.clients.insert(window)
    }

    /// Takes the last client whose window is `window` out of the registry.
    pub fn window_delete(&mut self, window: u64) -> (r: Option<ClientRef>)
        requires
            old(self).wf(),
        ensures
            final(self).wf(),
            Self::same_setup(*old(self), *final(self)),
            final(self).drag == old(self).drag,
            match last_index(old(self).clients.windows(), window) {
                None => r.is_none() && same_clients(old(self).clients, final(self).clients),
                Some(k) => {
                    &&& r == Some(old(self).clients.refs()[k])
                    &&& final(self).clients.refs() == old(self).clients.refs().remove(k)
                    &&& final(self).clients.clients() == old(self).clients.clients().remove(k)
                    &&& final(self).clients.spec_focused() == (if old(self).clients.spec_focused()
                        == r {
                        None
                    } else {
                        old(self).clients.spec_focused()
                    })
                },
            },
    {
        self.clients.remove(window)
    }

    /// Where a window of geometry `geometry` goes to stand in the middle of
    /// the screen, and the command that moves `window` there.
    pub fn win_center(&self, window: u64, geometry: Geometry) -> (out: (Geometry, Command<'a>))
        ensures
            out.0 == centered_on(geometry, self.display_width, self.display_height),
            out.1 == (Command::Move { window, x: out.0.x, y: out.0.y }),
    {
        let x = center(self.display_width, geometry.width);
        let y = center(self.display_height, geometry.height);
        (
            Geometry { x, y, width: geometry.width, height: geometry.height },
            Command::Move { window, x, y },
        )
    }

    /// Focuses the client that `r` names and gives the command that hands
    /// its window the input focus; does nothing if `r` names no client.
    pub fn win_focus(&mut self, r: ClientRef) -> (out: Option<Command<'a>>)
        requires
            old(self).wf(),
        ensures
            final(self).wf(),
            Self::same_setup(*old(self), *final(self)),
            final(self).drag == old(self).drag,
            final(self).clients.refs() == old(self).clients.refs(),
            final(self).clients.clients() == old(self).clients.clients(),
            if old(self).clients.refs().contains(r) {
                &&& final(self).clients.spec_focused() == Some(r)
                &&& out == Some(
                    Command::Focus {
                        window: old(self).clients.clients()[old(self).clients.position(r)].window,
                    },
                )
            } else {
                &&& final(self).clients.spec_focused() == old(self).clients.spec_focused()
                &&& out.is_none()
            },
    {
        match self.clients.get(r) {
            Some(c) => {
                self.clients.set_focused(r);
                Some(Command::Focus { window: c.window })
            },
            None => None,
        }
    }

    /// Where a window that asks to be shown with geometry `geometry` is put:
    /// in the middle of the screen if it reports the origin (0, 0), where it
    /// asks to be otherwise.
    pub open spec fn placed(&self, geometry: Geometry) -> Geometry {
        if geometry.x == 0 && geometry.y == 0 {
            centered_on(geometry, self.display_width, self.display_height)
        } else {
            geometry
        }
    }

    /// What a map request does: the window becomes the last client, with the
    /// geometry it is placed at, and the focused one; its events are asked
    /// for, it is moved if it is centred, shown and given the input focus.
    pub open spec fn map_request_effect(
        pre: Self,
        post: Self,
        out: Seq<Command<'a>>,
        window: u64,
        geometry: Geometry,
    ) -> bool {
        let at = pre.placed(geometry);
        &&& Self::same_setup(pre, post)
        &&& post.drag == pre.drag
        &&& post.clients.refs().len() == pre.clients.refs().len() + 1
        &&& post.clients.refs().drop_last() == pre.clients.refs()
        &&& !pre.clients.refs().contains(post.clients.refs().last())
        &&& post.clients.clients() == pre.clients.clients().push(
            Client::fresh(window).with_geometry(at),
        )
        &&& post.clients.spec_focused() == Some(post.clients.refs().last())
        &&& out == seq![Command::SelectInput { window }] + (if geometry.x == 0 && geometry.y == 0 {
            seq![Command::Move { window, x: at.x, y: at.y }]
        } else {
            Seq::empty()
        }) + seq![Command::Show { window }, Command::Focus { window }]
    }

    /// Handles the request of a new window to be shown.
    pub fn map_request(&mut self, window: u64, geometry: Geometry) -> (out: Vec<Command<'a>>)
        requires
            old(self).wf(),
        ensures
            final(self).wf(),
            Self::map_request_effect(*old(self), *final(self), out@, window, geometry),
    {
        let mut out: Vec<Command<'a>> = Vec::new();
        out.push(Command::SelectInput { window });
        let r = self.win_add(window);
        proof {
            self.clients.lemma_refs_distinct();
            let n = old(self).clients.refs().len() as int;
            assert(self.clients.refs()[n] == r);
            assert(self.clients.position(r) == n);
            assert(self.clients.refs().drop_last() =~= old(self).clients.refs());
        }
        let mut at = geometry;
        if geometry.x == 0 && geometry.y == 0 {
            let (centre, go) = self.win_center(window, geometry);
            at = centre;
            out.push(go);
        }
        self.clients.set_geometry(r, at);
        out.push(Command::Show { window });
        let focus = self.win_focus(r);
        if let Some(f) = focus {
            out.push(f);
        }
        proof {
            assert(self.clients.clients() =~= old(self).clients.clients().push(
                Client::fresh(window).with_geometry(at),
            ));
            assert(out@ =~= seq![Command::SelectInput { window }] + (if geometry.x == 0
                && geometry.y == 0 {
                seq![Command::Move { window, x: at.x, y: at.y }]
            } else {
                Seq::empty()
            }) + seq![Command::Show { window }, Command::Focus { window }]);
        }
        out
    }

    /// What the end of a window does: the last client with that window
    /// leaves the registry; if a client remains, the one before the tail
    /// becomes the focused one and its window is given the input focus. A
    /// window that no client has changes nothing.
    pub open spec fn notify_destroy_effect(
        pre: Self,
        post: Self,
        out: Seq<Command<'a>>,
        window: u64,
    ) -> bool {
        &&& Self::same_setup(pre, post)
        &&& post.drag == pre.drag
        &&& match last_index(pre.clients.windows(), window) {
            None => same_clients(pre.clients, post.clients) && out == Seq::<Command<'a>>::empty(),
            Some(k) => {
                let n = post.clients.refs().len() as int;
                let t = ClientRegistry::pred(n - 1, n);
                &&& post.clients.refs() == pre.clients.refs().remove(k)
                &&& post.clients.clients() == pre.clients.clients().remove(k)
                &&& if n > 0 {
                    &&& post.clients.spec_focused() == Some(post.clients.refs()[t])
                    &&& out == seq![Command::Focus { window: post.clients.clients()[t].window }]
                } else {
                    &&& post.clients.spec_focused().is_none()
                    &&& out == Seq::<Command<'a>>::empty()
                }
            },
        }
    }

    /// Handles the destruction or withdrawal of a window.
    pub fn notify_destroy(&mut self, window: u64) -> (out: Vec<Command<'a>>)
        requires
            old(self).wf(),
        ensures
            final(self).wf(),
            Self::notify_destroy_effect(*old(self), *final(self), out@, window),
    {
        let mut out: Vec<Command<'a>> = Vec::new();
        let removed = self.window_delete(window);
        if removed.is_some() {
            proof {
                self.clients.lemma_refs_distinct();
            }
            let ghost n = self.clients.refs().len() as int;
            match self.clients.tail() {
                Some(tail) => {
                    proof {
                        assert(self.clients.refs().contains(tail));
                        assert(self.clients.position(tail) == n - 1);
                    }
                    match self.clients.prev(tail) {
                        Some(before) => {
                            proof {
                                let t = ClientRegistry::pred(n - 1, n);
                                assert(self.clients.refs().contains(before));
                                assert(self.clients.position(before) == t);
                            }
                            if let Some(f) = self.win_focus(before) {
                                out.push(f);
                            }
                        },
                        None => {},
                    }
                },
                None => {
                    proof {
                        self.clients.lemma_focus_held();
                    }
                },
            }
        }
        out
    }

    /// What the pointer's entry into a window does: the last client with
    /// that window becomes the focused one and the window is given the input
    /// focus. A window that no client has changes nothing.
    pub open spec fn notify_enter_effect(
        pre: Self,
        post: Self,
        out: Seq<Command<'a>>,
        window: u64,
    ) -> bool {
        &&& Self::same_setup(pre, post)
        &&& post.drag == pre.drag
        &&& post.clients.refs() == pre.clients.refs()
        &&& post.clients.clients() == pre.clients.clients()
        &&& match last_index(pre.clients.windows(), window) {
            None => post.clients.spec_focused() == pre.clients.spec_focused() && out == Seq::<
                Command<'a>,
            >::empty(),
            Some(k) => post.clients.spec_focused() == Some(pre.clients.refs()[k]) && out
                == seq![Command::Focus { window }],
        }
    }

    /// Handles the pointer's entry into a window.
    pub fn notify_enter(&mut self, window: u64) -> (out: Vec<Command<'a>>)
        requires
            old(self).wf(),
        ensures
            final(self).wf(),
            Self::notify_enter_effect(*old(self), *final(self), out@, window),
    {
        let mut out: Vec<Command<'a>> = Vec::new();
        proof {
            self.clients.lemma_refs_distinct();
            crate::client::lemma_last_index(self.clients.windows(), window);
        }
        if let Some(r) = self.clients.find(window) {
            if let Some(f) = self.win_focus(r) {
                out.push(f);
            }
        }
        out
    }

    /// What a motion of the pointer does: while a drag is in progress over a
    /// window that is not fullscreen, the window is moved or resized to where
    /// the drag takes it, and a client with that window records the new
    /// geometry. With no drag in progress, or over a fullscreen window,
    /// nothing happens.
    pub open spec fn notify_motion_effect(
        pre: Self,
        post: Self,
        out: Seq<Command<'a>>,
        x_root: i32,
        y_root: i32,
    ) -> bool {
        &&& Self::same_setup(pre, post)
        &&& post.drag == pre.drag
        &&& post.clients.refs() == pre.clients.refs()
        &&& post.clients.spec_focused() == pre.clients.spec_focused()
        &&& match pre.drag {
            None => post.clients.clients() == pre.clients.clients() && out == Seq::<
                Command<'a>,
            >::empty(),
            Some(drag) => {
                let to = drag.dragged(x_root, y_root);
                let go = seq![Command::MoveResize { window: drag.subwindow, geometry: to }];
                match last_index(pre.clients.windows(), drag.subwindow) {
                    None => post.clients.clients() == pre.clients.clients() && out == go,
                    Some(k) => if pre.clients.clients()[k].fullscreen {
                        post.clients.clients() == pre.clients.clients() && out == Seq::<
                            Command<'a>,
                        >::empty()
                    } else {
                        post.clients.clients() == pre.clients.clients().update(
                            k,
                            pre.clients.clients()[k].with_geometry(to),
                        ) && out == go
                    },
                }
            },
        }
    }

    /// Handles a motion of the pointer.
    pub fn notify_motion(&mut self, x_root: i32, y_root: i32) -> (out: Vec<Command<'a>>)
        requires
            old(self).wf(),
        ensures
            final(self).wf(),
            Self::notify_motion_effect(*old(self), *final(self), out@, x_root, y_root),
    {
        let mut out: Vec<Command<'a>> = Vec::new();
        if let Some(drag) = self.drag {
            proof {
                self.clients.lemma_refs_distinct();
                crate::client::lemma_last_index(self.clients.windows(), drag.subwindow);
            }
            let to = drag.target(x_root, y_root);
            match self.clients.find(drag.subwindow) {
                Some(r) => {
                    if let Some(c) = self.clients.get(r) {
                        if !c.fullscreen {
                            self.clients.set_geometry(r, to);
                            out.push(Command::MoveResize { window: drag.subwindow, geometry: to });
                        }
                    }
                },
                None => {
                    out.push(Command::MoveResize { window: drag.subwindow, geometry: to });
                },
            }
        }
        out
    }

    /// Learns the modifier bit of Num Lock from a modifier map and lists the
    /// grabs that route the bound keys and the two drag buttons to the window
    /// manager. `map` is the modifier map, row by row, with `per_row` entries
    /// in a row; `numlock_keycode` is the keycode of Num Lock; `keycodes`
    /// holds, for each binding of the table in order, the keycode of its key
    /// symbol, 0 where it has none. The lock variants of the grabs are built
    /// from the Num Lock bit known before the call.
    pub fn input_grab(
        &mut self,
        map: &Vec<u8>,
        per_row: usize,
        numlock_keycode: u8,
        keycodes: &Vec<u8>,
    ) -> (out: Vec<Grab>)
        ensures
            final(self).display_width == old(self).display_width,
            final(self).display_height == old(self).display_height,
            final(self).workspace == old(self).workspace,
            final(self).config == old(self).config,
            final(self).clients == old(self).clients,
            final(self).drag == old(self).drag,
            final(self).numlock == numlock_scan(
                map@,
                per_row as int,
                numlock_keycode,
                old(self).numlock,
                map@.len() as int,
            ),
            out@ == grab_plan(old(self).config.keys@, keycodes@, old(self).numlock),
    {
        let lock = lock_mask();
        let mut variants: Vec<u32> = Vec::new();
        variants.push(0);
        variants.push(lock);
        variants.push(self.numlock);
        variants.push(self.numlock | lock);
        assert(variants@ =~= lock_variants(self.numlock));
        self.numlock = detect_numlock(map, per_row, numlock_keycode, self.numlock);
        let mut out: Vec<Grab> = Vec::new();
        out.push(Grab::UngrabKeys);
        let mut i: usize = 0;
        while i < self.config.keys.len()
            invariant
                i <= self.config.keys@.len(),
                self.config == old(self).config,
                variants@ == lock_variants(old(self).numlock),
                out@ == seq![Grab::UngrabKeys] + table_grabs(
                    self.config.keys@,
                    keycodes@,
                    variants@,
                    i as int,
                ),
            decreases self.config.keys@.len() - i,
        {
            let keycode: u8 = if i < keycodes.len() {
                keycodes[i]
            } else {
                0
            };
            if keycode != 0 {
                let modifier = self.config.keys[i].modifier;
                let ghost before = out@;
                let mut v: usize = 0;
                while v < variants.len()
                    invariant
                        v <= variants@.len(),
                        out@ == before + key_grabs(keycode, modifier, variants@.take(v as int)),
                    decreases variants@.len() - v,
                {
                    out.push(Grab::KeyChord { keycode, modifiers: modifier | variants[v] });
                    proof {
                        assert(key_grabs(keycode, modifier, variants@.take(v + 1)) =~= key_grabs(
                            keycode,
                            modifier,
                            variants@.take(v as int),
                        ).push(Grab::KeyChord { keycode, modifiers: modifier | variants@[v as int] }));
                    }
                    v += 1;
                }
                proof {
                    assert(variants@.take(variants@.len() as int) =~= variants@);
                }
            }
            proof {
                assert(out@ =~= seq![Grab::UngrabKeys] + table_grabs(
                    self.config.keys@,
                    keycodes@,
                    variants@,
                    i + 1,
                ));
            }
            i += 1;
        }
        let chord = mod1_mask();
        let ghost keyed = out@;
        let mut v: usize = 0;
        while v < variants.len()
            invariant
                v <= variants@.len(),
                chord == MOD,
                out@ == keyed + button_grabs(MOVE_BUTTON, variants@.take(v as int)),
            decreases variants@.len() - v,
        {
            out.push(Grab::ButtonChord { button: MOVE_BUTTON, modifiers: chord | variants[v] });
            proof {
                assert(button_grabs(MOVE_BUTTON, variants@.take(v + 1)) =~= button_grabs(
                    MOVE_BUTTON,
                    variants@.take(v as int),
                ).push(Grab::ButtonChord { button: MOVE_BUTTON, modifiers: MOD | variants@[v as int] }));
            }
            v += 1;
        }
        let ghost moved = out@;
        v = 0;
        while v < variants.len()
            invariant
                v <= variants@.len(),
                chord == MOD,
                out@ == moved + button_grabs(RESIZE_BUTTON, variants@.take(v as int)),
            decreases variants@.len() - v,
        {
            out.push(Grab::ButtonChord { button: RESIZE_BUTTON, modifiers: chord | variants[v] });
            proof {
                assert(button_grabs(RESIZE_BUTTON, variants@.take(v + 1)) =~= button_grabs(
                    RESIZE_BUTTON,
                    variants@.take(v as int),
                ).push(
                    Grab::ButtonChord { button: RESIZE_BUTTON, modifiers: MOD | variants@[v as int] },
                ));
            }
            v += 1;
        }
        proof {
            assert(variants@.take(variants@.len() as int) =~= variants@);
            assert(out@ =~= grab_plan(old(self).config.keys@, keycodes@, old(self).numlock));
        }
        out
    }

    /// What handling one event does, event by event.
    pub open spec fn handled(pre: Self, post: Self, out: Seq<Command<'a>>, event: Event) -> bool {
        match event {
            Event::ButtonPress { subwindow, button, x_root, y_root, geometry } => {
                Self::button_press_effect(pre, post, out, subwindow, button, x_root, y_root, geometry)
            },
            Event::ButtonRelease => {
                &&& Self::same_setup(pre, post)
                &&& post.clients == pre.clients
                &&& post.drag.is_none()
                &&& out == Seq::<Command<'a>>::empty()
            },
            Event::MotionNotify { x_root, y_root } => {
                Self::notify_motion_effect(pre, post, out, x_root, y_root)
            },
            Event::KeyPress { keysym, state } => {
                post == pre && out == pre.key_press_commands(keysym, state)
            },
            Event::MapRequest { window, geometry } => {
                Self::map_request_effect(pre, post, out, window, geometry)
            },
            Event::DestroyNotify { window } => Self::notify_destroy_effect(pre, post, out, window),
            Event::UnmapNotify { window } => Self::notify_destroy_effect(pre, post, out, window),
            Event::EnterNotify { window } => Self::notify_enter_effect(pre, post, out, window),
            Event::MappingNotify { request } => {
                post == pre && out == Self::mapping_commands(request)
            },
            Event::ConfigureRequest(request) => {
                post == pre && out == seq![Command::Configure(request)]
            },
            Event::Other => post == pre && out == Seq::<Command<'a>>::empty(),
        }
    }

    /// Handles one event: routes it to the one handler of its kind, which
    /// changes the state and decides on the commands to carry out, in order.
    /// An event of any other kind is ignored.
    pub fn handle_events(&mut self, event: Event) -> (out: Vec<Command<'a>>)
        requires
            old(self).wf(),
        ensures
            final(self).wf(),
            Self::handled(*old(self), *final(self), out@, event),
    {
        match event {
            Event::ButtonPress { subwindow, button, x_root, y_root, geometry } => {
                self.button_press(subwindow, button, x_root, y_root, geometry)
            },
            Event::ButtonRelease => {
                self.button_release();
                Vec::new()
            },
            Event::MotionNotify { x_root, y_root } => self.notify_motion(x_root, y_root),
            Event::KeyPress { keysym, state } => self.key_press(keysym, state),
            Event::MapRequest { window, geometry } => self.map_request(window, geometry),
            Event::DestroyNotify { window } => self.notify_destroy(window),
            Event::UnmapNotify { window } => self.notify_destroy(window),
            Event::EnterNotify { window } => self.notify_enter(window),
            Event::MappingNotify { request } => self.mapping_notify(request),
            Event::ConfigureRequest(request) => self.configure_request(request),
            Event::Other => Vec::new(),
        }
    }
}

/// A window that asks to be shown at the origin (0, 0) ends up centred: its
/// client, the last of the registry, records half of what the screen leaves
/// free as its origin, on both axes, and the window is moved there. Where
/// the window is no larger than the screen, that is exactly
/// `(screen - window) / 2`.
pub proof fn lemma_map_request_centres<'a>(
    pre: Windex<'a>,
    post: Windex<'a>,
    out: Seq<Command<'a>>,
    window: u64,
    geometry: Geometry,
)
    requires
        Windex::map_request_effect(pre, post, out, window, geometry),
        geometry.x == 0,
        geometry.y == 0,
    ensures
        post.clients.clients().last().window == window,
        post.clients.clients().last().workspace_x == centered(pre.display_width, geometry.width),
        post.clients.clients().last().workspace_y == centered(
            pre.display_height,
            geometry.height,
        ),
        post.clients.clients().last().workspace_width == geometry.width,
        post.clients.clients().last().workspace_height == geometry.height,
        out == seq![
            Command::SelectInput { window },
            Command::Move {
                window,
                x: centered(pre.display_width, geometry.width),
                y: centered(pre.display_height, geometry.height),
            },
            Command::Show { window },
            Command::Focus { window },
        ],
        geometry.width <= pre.display_width ==> centered(pre.display_width, geometry.width) == (
        pre.display_width - geometry.width) / 2,
        geometry.height <= pre.display_height ==> centered(pre.display_height, geometry.height)
            == (pre.display_height - geometry.height) / 2,
{
    let at = pre.placed(geometry);
    assert(out =~= seq![
        Command::SelectInput { window },
        Command::Move { window, x: at.x, y: at.y },
        Command::Show { window },
        Command::Focus { window },
    ]);
}

/// The four masks that stand for "with or without Caps Lock, with or without
/// Num Lock", given the bit of Num Lock.
pub open spec fn lock_variants(numlock: u32) -> Seq<u32> {
    seq![0u32, LOCK, numlock, numlock | LOCK]
}

/// The grabs of one key: its modifier mask joined with each mask of
/// `variants`, in order.
pub open spec fn key_grabs(keycode: u8, modifier: u32, variants: Seq<u32>) -> Seq<Grab> {
    Seq::new(
        variants.len(),
        |v: int| Grab::KeyChord { keycode, modifiers: modifier | variants[v] },
    )
}

/// The grabs of one pointer button: `MOD` joined with each mask of
/// `variants`, in order.
pub open spec fn button_grabs(button: u32, variants: Seq<u32>) -> Seq<Grab> {
    Seq::new(variants.len(), |v: int| Grab::ButtonChord { button, modifiers: MOD | variants[v] })
}

/// The keycode of binding `i`: entry `i` of `keycodes`, or 0 where
/// `keycodes` is too short.
pub open spec fn keycode_at(keycodes: Seq<u8>, i: int) -> u8 {
    if 0 <= i < keycodes.len() {
        keycodes[i]
    } else {
        0
    }
}

/// The grabs of the first `n` bindings of the table, in order; a binding
/// whose keycode is 0 has none.
pub open spec fn table_grabs(keys: Seq<Key<'_>>, keycodes: Seq<u8>, variants: Seq<u32>, n: int) -> Seq<
    Grab,
>
    decreases n,
{
    if n <= 0 {
        Seq::empty()
    } else {
        table_grabs(keys, keycodes, variants, n - 1) + (if keycode_at(keycodes, n - 1) != 0 {
            key_grabs(keycode_at(keycodes, n - 1), keys[n - 1].modifier, variants)
        } else {
            Seq::empty()
        })
    }
}

/// The whole grab procedure: release every key, grab the keys of the table,
/// then the move button and the resize button, each with every lock variant.
pub open spec fn grab_plan(keys: Seq<Key<'_>>, keycodes: Seq<u8>, numlock: u32) -> Seq<Grab> {
    let variants = lock_variants(numlock);
    seq![Grab::UngrabKeys] + table_grabs(keys, keycodes, variants, keys.len() as int) + button_grabs(
        MOVE_BUTTON,
        variants,
    ) + button_grabs(RESIZE_BUTTON, variants)
}

} // verus!
