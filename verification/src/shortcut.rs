use vstd::prelude::*;

verus! {

/// The keyboard modifiers held down during a keystroke.
#[derive(PartialEq, Eq, Structural, Debug, Clone, Copy)]
pub struct KeyboardModifiers {
    pub ctrl: bool,
    pub alt: bool,
    pub shift: bool,
    pub caps_lock: bool,
    pub logo: bool,
    pub num_lock: bool,
}

impl Default for KeyboardModifiers {
    /// No modifier held.
    fn default() -> (m: KeyboardModifiers)
        ensures
            m == (KeyboardModifiers {
                ctrl: false,
                alt: false,
                shift: false,
                caps_lock: false,
                logo: false,
                num_lock: false,
            }),
    {
        KeyboardModifiers {
            ctrl: false,
            alt: false,
            shift: false,
            caps_lock: false,
            logo: false,
            num_lock: false,
        }
    }
}

/// What a shortcut does when it fires.
pub enum ShortcutAction {
    /// Spawns the named program.
    Command(String),
    /// A compositor-internal action.
    SystemAction(()),
    /// Nothing at all.
    Nothing,
}

/// A shortcut: the modifiers and key symbols that fire it, and its action.
pub struct RegisteredShortcut {
    pub modifiers: KeyboardModifiers,
    pub keysyms: Vec<u32>,
    pub action: ShortcutAction,
}

/// A keystroke: the modifiers held and the raw key symbols produced.
pub struct KeystrokeEvent {
    pub modifiers: KeyboardModifiers,
    pub modified_keysyms: Vec<u32>,
}

/// Whether `shortcut` fires on a keystroke with `modifiers` held that
/// produced the key symbols `keysyms`: same modifiers, same symbols in the
/// same order.
pub open spec fn fires_on(shortcut: RegisteredShortcut, modifiers: KeyboardModifiers, keysyms: Seq<u32>) -> bool {
    shortcut.modifiers == modifiers && shortcut.keysyms@ == keysyms
}

/// Whether `found` is the answer to looking up, in `registry`, the first
/// shortcut that fires on `modifiers` and `keysyms`: that shortcut, or
/// `None` when none fires.
pub open spec fn is_first_firing(
    registry: Seq<RegisteredShortcut>,
    modifiers: KeyboardModifiers,
    keysyms: Seq<u32>,
    found: Option<&RegisteredShortcut>,
) -> bool {
    match found {
        Some(s) => exists|i: int|
            0 <= i < registry.len() && fires_on(registry[i], modifiers, keysyms) && *s == registry[i]
                && (forall|j: int| 0 <= j < i ==> !fires_on(#[trigger] registry[j], modifiers, keysyms)),
        None => forall|i: int| 0 <= i < registry.len() ==> !fires_on(#[trigger] registry[i], modifiers, keysyms),
    }
}

/// Registering a shortcut never changes what an earlier registration
/// answers: a keystroke that fires a registered shortcut still finds the same
/// one afterwards, and a keystroke that fires none finds the new shortcut
/// exactly when the new shortcut fires on it.
pub proof fn registering_keeps_earlier_answers(
    registry: Seq<RegisteredShortcut>,
    shortcut: RegisteredShortcut,
    modifiers: KeyboardModifiers,
    keysyms: Seq<u32>,
    found: Option<&RegisteredShortcut>,
)
    requires
        is_first_firing(registry, modifiers, keysyms, found),
    ensures
        found is Some ==> is_first_firing(registry.push(shortcut), modifiers, keysyms, found),
        found is None && fires_on(shortcut, modifiers, keysyms) ==> is_first_firing(
            registry.push(shortcut),
            modifiers,
            keysyms,
            Some(&shortcut),
        ),
        found is None && !fires_on(shortcut, modifiers, keysyms) ==> is_first_firing(
            registry.push(shortcut),
            modifiers,
            keysyms,
            None,
        ),
{
    let r = registry.push(shortcut);
    match found {
        Some(s) => {
            let i = choose|i: int|
                0 <= i < registry.len() && fires_on(registry[i], modifiers, keysyms) && *s == registry[i]
                    && (forall|j: int| 0 <= j < i ==> !fires_on(#[trigger] registry[j], modifiers, keysyms));
            assert(r[i] == registry[i]);
            assert forall|j: int| 0 <= j < i implies !fires_on(#[trigger] r[j], modifiers, keysyms) by {
                assert(r[j] == registry[j]);
            }
        },
        None => {
            let n = registry.len() as int;
            assert(r[n] == shortcut);
            assert forall|j: int| 0 <= j < n implies !fires_on(#[trigger] r[j], modifiers, keysyms) by {
                assert(r[j] == registry[j]);
            }
            if !fires_on(shortcut, modifiers, keysyms) {
                assert forall|j: int| 0 <= j < r.len() implies !fires_on(#[trigger] r[j], modifiers, keysyms) by {
                    if j < n {
                        assert(r[j] == registry[j]);
                    }
                }
            }
        },
    }
}

/// The shortcut found for a keystroke has exactly the keystroke's modifiers
/// (no more, no fewer) and exactly its key symbols; none is found only when
/// no registered shortcut has both.
pub proof fn first_firing_matches_exactly(
    registry: Seq<RegisteredShortcut>,
    modifiers: KeyboardModifiers,
    keysyms: Seq<u32>,
    found: Option<&RegisteredShortcut>,
)
    requires
        is_first_firing(registry, modifiers, keysyms, found),
    ensures
        found matches Some(s) ==> s.modifiers == modifiers && s.keysyms@ == keysyms,
        found is None ==> forall|i: int| 0 <= i < registry.len() ==> !(#[trigger] registry[i].modifiers
            == modifiers && registry[i].keysyms@ == keysyms),
{
    if found is None {
        assert forall|i: int| 0 <= i < registry.len() implies !(#[trigger] registry[i].modifiers
            == modifiers && registry[i].keysyms@ == keysyms) by {
            assert(!fires_on(registry[i], modifiers, keysyms));
        }
    }
}

impl KeystrokeEvent {
    /// Whether the given shortcut fires on this keystroke.
    pub fn valid_for_shortcut(&self, shortcut: &RegisteredShortcut) -> (valid: bool)
        ensures
            valid == fires_on(*shortcut, self.modifiers, self.modified_keysyms@),
            valid == (self.modifiers.ctrl == shortcut.modifiers.ctrl && self.modifiers.alt
                == shortcut.modifiers.alt && self.modifiers.shift == shortcut.modifiers.shift
                && self.modifiers.caps_lock == shortcut.modifiers.caps_lock && self.modifiers.logo
                == shortcut.modifiers.logo && self.modifiers.num_lock == shortcut.modifiers.num_lock
                && self.modified_keysyms@ == shortcut.keysyms@),
    {
        let same = self.modified_keysyms == shortcut.keysyms;
        proof {
            if self.modified_keysyms@ == shortcut.keysyms@ {
                assert(self.modified_keysyms@ =~= shortcut.keysyms@);
            }
            if same {
                assert(self.modified_keysyms@ =~= shortcut.keysyms@);
            }
        }
        self.modifiers == shortcut.modifiers && same
    }
}

/// The registered keyboard shortcuts, in registration order.
pub struct ShortcutsComponent {
    registry: Vec<RegisteredShortcut>,
}

impl Default for ShortcutsComponent {
    /// No shortcut registered.
    fn default() -> (c: ShortcutsComponent)
        ensures
            c.shortcuts().len() == 0,
    {
        ShortcutsComponent { registry: Vec::new() }
    }
}

impl ShortcutsComponent {
    /// The registered shortcuts, in registration order.
    pub closed spec fn shortcuts(&self) -> Seq<RegisteredShortcut> {
        self.registry@
    }

    /// Registers a shortcut after all those registered before.
    pub fn register(&mut self, shortcut: RegisteredShortcut)
        ensures
            final(self).shortcuts() == old(self).shortcuts().push(shortcut),
    {
        self.registry.push(shortcut);
    }

    /// Finds the first registered shortcut that fires on the keystroke.
    pub fn find_shortcut_for_event(&self, event: &KeystrokeEvent) -> (found: Option<&RegisteredShortcut>)
        ensures
            is_first_firing(self.shortcuts(), event.modifiers, event.modified_keysyms@, found),
            found matches Some(s) ==> s.modifiers == event.modifiers && s.keysyms@ == event.modified_keysyms@,
            found is None ==> forall|i: int| 0 <= i < self.shortcuts().len() ==> !(
            #[trigger] self.shortcuts()[i].modifiers == event.modifiers && self.shortcuts()[i].keysyms@
                == event.modified_keysyms@),
    {
        let n = self.registry.len();
        for i in 0..n
            invariant
                n == self.registry@.len(),
                forall|j: int| 0 <= j < i ==> !fires_on(
                    #[trigger] self.registry@[j],
                    event.modifiers,
                    event.modified_keysyms@,
                ),
        {
            if event.valid_for_shortcut(&self.registry[i]) {
                return Some(&self.registry[i]);
            }
        }
        None
    }

    /// Finds the first registered shortcut that fires when `modifiers` are
    /// held and the keys produce the raw key symbols `keysyms_delta`.
    pub fn find_shortcut(
        &self,
        modifiers: KeyboardModifiers,
        keysyms_delta: Vec<u32>,
    ) -> (found: Option<&RegisteredShortcut>)
        ensures
            is_first_firing(self.shortcuts(), modifiers, keysyms_delta@, found),
            found matches Some(s) ==> s.modifiers == modifiers && s.keysyms@ == keysyms_delta@,
            found is None ==> forall|i: int| 0 <= i < self.shortcuts().len() ==> !(
            #[trigger] self.shortcuts()[i].modifiers == modifiers && self.shortcuts()[i].keysyms@
                == keysyms_delta@),
    {
        let event = KeystrokeEvent { modifiers, modified_keysyms: keysyms_delta };
        self.find_shortcut_for_event(&event)
    }
}

} // verus!
