//! The table of key bindings built from the configuration, the lookup that
//! serves the host's key events, and the list of global shortcuts to
//! register with the desktop's shortcut service.

use crate::host::{find_in_plugins, DeadBeef};
use crate::record::HotkeyRecord;
use crate::session::{step, SessionAction, SessionInput, ShortcutHandler};
use crate::title::{display_title, display_title_of};
use vstd::prelude::*;

verus! {

/// A key binding: the key code and modifier mask that trigger it, the
/// context its action runs in, whether it is global (1) or local (0), and
/// the host's handle of its action (0 when no action has that name).
#[derive(Debug, Clone, Copy, PartialEq, Eq, Structural)]
pub struct Command {
    pub keycode: i32,
    pub modifier: i32,
    pub ctx: u32,
    pub isglobal: i32,
    pub action: usize,
}

impl Command {
    /// The binding with these fields.
    pub fn new(keycode: i32, modifier: i32, ctx: u32, isglobal: i32, action: usize) -> (r: Command)
        ensures
            r == (Command { keycode, modifier, ctx, isglobal, action }),
    {
        Command { keycode, modifier, ctx, isglobal, action }
    }
}

/// The binding answers to the key combination `(key, mods)` in scope `isglobal`.
pub open spec fn binds(c: Command, key: i32, mods: i32, isglobal: i32) -> bool {
    c.isglobal == isglobal && c.keycode == key && c.modifier == mods
}

/// The first binding of `t` that answers to the combination.
pub open spec fn lookup(t: Seq<Command>, key: i32, mods: i32, isglobal: i32) -> Option<Command>
    decreases t.len(),
{
    if t.len() == 0 {
        None
    } else if binds(t[0], key, mods, isglobal) {
        Some(t[0])
    } else {
        lookup(t.drop_first(), key, mods, isglobal)
    }
}

/// The handle of the action that answers to `name`, or 0.
pub open spec fn action_handle(ps: Seq<crate::host::Plugin>, name: Seq<char>) -> usize {
    match find_in_plugins(ps, name) {
        Some(a) => a.ptr,
        None => 0,
    }
}

/// The binding that a record makes, once its keystroke is known as a key
/// code and a modifier mask.
pub open spec fn command_for(
    ps: Seq<crate::host::Plugin>,
    rec: HotkeyRecord,
    key: (i32, i32),
) -> Command {
    Command {
        keycode: key.0,
        modifier: key.1,
        ctx: rec.ctx,
        isglobal: if rec.is_global {
            1
        } else {
            0
        },
        action: action_handle(ps, rec.action_name@),
    }
}

/// The bindings that the first `n` records make: one for each record whose
/// keystroke could be resolved, in order.
pub open spec fn table_of(
    ps: Seq<crate::host::Plugin>,
    recs: Seq<HotkeyRecord>,
    keys: Seq<Option<(i32, i32)>>,
    n: int,
) -> Seq<Command>
    decreases n,
{
    if n <= 0 {
        Seq::empty()
    } else {
        let prev = table_of(ps, recs, keys, n - 1);
        match keys[n - 1] {
            Some(k) => prev.push(command_for(ps, recs[n - 1], k)),
            None => prev,
        }
    }
}

/// A global shortcut to ask the shortcut service for: its id (the action's
/// name), the description shown to the user, and the keystroke preferred.
pub struct ShortcutRequest {
    pub id: String,
    pub description: String,
    pub preferred_trigger: String,
}

impl ShortcutRequest {
    /// The request's id, description and preferred keystroke.
    pub open spec fn fields(&self) -> (Seq<char>, Seq<char>, Seq<char>) {
        (self.id@, self.description@, self.preferred_trigger@)
    }
}

/// The title a global binding is shown under: the action's title, or its
/// name when it has none, shown by its last segment.
pub open spec fn request_title(a: crate::host::Action, name: Seq<char>) -> Seq<char> {
    display_title(
        match a.title {
            Some(t) => t@,
            None => name,
        },
    )
}

/// The request that a record makes: only a global binding whose keystroke
/// was resolved, whose action exists, and whose title is not empty makes one.
pub open spec fn request_for(
    ps: Seq<crate::host::Plugin>,
    rec: HotkeyRecord,
    key: Option<(i32, i32)>,
) -> Option<(Seq<char>, Seq<char>, Seq<char>)> {
    if key is Some && rec.is_global {
        match find_in_plugins(ps, rec.action_name@) {
            Some(a) => {
                let t = request_title(a, rec.action_name@);
                if t.len() > 0 {
                    Some((rec.action_name@, t, rec.keystroke@))
                } else {
                    None
                }
            },
            None => None,
        }
    } else {
        None
    }
}

/// The requests that the first `n` records make, in order.
pub open spec fn requests_of(
    ps: Seq<crate::host::Plugin>,
    recs: Seq<HotkeyRecord>,
    keys: Seq<Option<(i32, i32)>>,
    n: int,
) -> Seq<(Seq<char>, Seq<char>, Seq<char>)>
    decreases n,
{
    if n <= 0 {
        Seq::empty()
    } else {
        let prev = requests_of(ps, recs, keys, n - 1);
        match request_for(ps, recs[n - 1], keys[n - 1]) {
            Some(q) => prev.push(q),
            None => prev,
        }
    }
}

/// The global shortcuts that the records ask for, given what each record's
/// keystroke resolved to.
pub fn registration_requests(
    db: &DeadBeef,
    records: &Vec<HotkeyRecord>,
    keys: &Vec<Option<(i32, i32)>>,
) -> (r: Vec<ShortcutRequest>)
    requires
        records@.len() == keys@.len(),
    ensures
        r@.map_values(|q: ShortcutRequest| q.fields()) == requests_of(
            db.plugins@,
            records@,
            keys@,
            records@.len() as int,
        ),
{
    let mut out: Vec<ShortcutRequest> = Vec::new();
    for i in 0..records.len()
        invariant
            records@.len() == keys@.len(),
            out@.map_values(|q: ShortcutRequest| q.fields()) == requests_of(
                db.plugins@,
                records@,
                keys@,
                i as int,
            ),
    {
        let rec = &records[i];
        let ghost before = out@;
        if keys[i].is_some() && rec.is_global {
            if let Some(a) = db.find_action_by_name(rec.action_name.as_str()) {
                let title = match a.title() {
                    Some(t) => display_title_of(t),
                    None => display_title_of(rec.action_name.as_str()),
                };
                if title.unicode_len() > 0 {
                    out.push(
                        ShortcutRequest {
                            id: rec.action_name.clone(),
                            description: title,
                            preferred_trigger: rec.keystroke.clone(),
                        },
                    );
                    assert(out@.map_values(|q: ShortcutRequest| q.fields()) =~= before.map_values(
                        |q: ShortcutRequest| q.fields(),
                    ).push(out@.last().fields()));
                }
            }
        }
    }
    out
}

/// The key bindings of the plugin, in the order the configuration gave them.
pub struct MiscPlugin {
    pub commands: Vec<Command>,
}

impl MiscPlugin {
    /// A plugin with no bindings yet.
    pub fn new() -> (r: MiscPlugin)
        ensures
            r.commands@.len() == 0,
    {
        MiscPlugin { commands: Vec::new() }
    }

    /// Adds the bindings that the records make: one for each record whose
    /// keystroke resolved (`keys[i]`), with the handle of the action it
    /// names, or 0 when there is no such action.
    pub fn read_config(
        &mut self,
        db: &DeadBeef,
        records: &Vec<HotkeyRecord>,
        keys: &Vec<Option<(i32, i32)>>,
    )
        requires
            records@.len() == keys@.len(),
        ensures
            final(self).commands@ == old(self).commands@ + table_of(
                db.plugins@,
                records@,
                keys@,
                records@.len() as int,
            ),
    {
        let ghost start = self.commands@;
        assert(start + Seq::<Command>::empty() =~= start);
        for i in 0..records.len()
            invariant
                records@.len() == keys@.len(),
                self.commands@ == start + table_of(db.plugins@, records@, keys@, i as int),
        {
            if let Some((keycode, modifier)) = keys[i] {
                let rec = &records[i];
                let action = match db.find_action_by_name(rec.action_name.as_str()) {
                    Some(a) => a.as_ptr(),
                    None => 0,
                };
                let ghost before = self.commands@;
                self.commands.push(
                    Command {
                        keycode,
                        modifier,
                        ctx: rec.ctx,
                        isglobal: if rec.is_global {
                            1
                        } else {
                            0
                        },
                        action,
                    },
                );
                assert(self.commands@ =~= start + table_of(
                    db.plugins@,
                    records@,
                    keys@,
                    i + 1,
                ));
            }
        }
    }

    /// Builds the bindings from the records, as `read_config` does, and
    /// gives the global shortcuts to register.
    pub fn plugin_start(
        &mut self,
        db: &DeadBeef,
        records: &Vec<HotkeyRecord>,
        keys: &Vec<Option<(i32, i32)>>,
    ) -> (r: Vec<ShortcutRequest>)
        requires
            records@.len() == keys@.len(),
        ensures
            final(self).commands@ == old(self).commands@ + table_of(
                db.plugins@,
                records@,
                keys@,
                records@.len() as int,
            ),
            r@.map_values(|q: ShortcutRequest| q.fields()) == requests_of(
                db.plugins@,
                records@,
                keys@,
                records@.len() as int,
            ),
    {
        self.read_config(db, records, keys);
        registration_requests(db, records, keys)
    }

    /// The context and action handle of the first binding for the key
    /// combination in the given scope.
    pub fn get_action_for_keycombo(&self, key: i32, mods: i32, isglobal: i32) -> (r: Option<
        (u32, usize),
    >)
        ensures
            r == match lookup(self.commands@, key, mods, isglobal) {
                Some(c) => Some((c.ctx, c.action)),
                None => None,
            },
    {
        let ghost t = self.commands@;
        let mut i: usize = 0;
        assert(t.skip(0) =~= t);
        while i < self.commands.len()
            invariant
                i <= t.len(),
                t == self.commands@,
                lookup(t, key, mods, isglobal) == lookup(t.skip(i as int), key, mods, isglobal),
            decreases t.len() - i,
        {
            let c = self.commands[i];
            assert(t.skip(i as int)[0] == t[i as int]);
            if c.isglobal == isglobal && c.keycode == key && c.modifier == mods {
                return Some((c.ctx, c.action));
            }
            assert(t.skip(i as int).drop_first() =~= t.skip(i + 1));
            i = i + 1;
        }
        assert(t.skip(i as int).len() == 0);
        None
    }

    /// Stops the plugin: its bindings are dropped and the session handler
    /// is stopped; the action returned is the handler's.
    pub fn plugin_stop(&mut self, handler: &mut ShortcutHandler) -> (r: SessionAction)
        requires
            old(handler).wf(),
        ensures
            final(self).commands@.len() == 0,
            final(handler).wf(),
            (final(handler)@, r) == step(old(handler)@, SessionInput::Stop),
    {
        self.commands.clear();
        handler.stop()
    }
}

/// A later binding for the same key combination never changes what the
/// lookup finds: when `t[i]` and `t[j]` (`i < j`) both answer, the lookup
/// finds a binding, and the same one as in the table cut before `t[j]`.
pub proof fn lemma_first_binding_wins(
    t: Seq<Command>,
    i: int,
    j: int,
    key: i32,
    mods: i32,
    isglobal: i32,
)
    requires
        0 <= i < j < t.len(),
        binds(t[i], key, mods, isglobal),
        binds(t[j], key, mods, isglobal),
    ensures
        lookup(t, key, mods, isglobal) is Some,
        lookup(t, key, mods, isglobal) == lookup(t.take(j), key, mods, isglobal),
    decreases i,
{
    if !binds(t[0], key, mods, isglobal) {
        let u = t.drop_first();
        lemma_first_binding_wins(u, i - 1, j - 1, key, mods, isglobal);
        assert(t.take(j).drop_first() =~= u.take(j - 1));
    }
}

/// The first binding that answers is the one found.
pub proof fn lemma_lookup_first(t: Seq<Command>, i: int, key: i32, mods: i32, isglobal: i32)
    requires
        0 <= i < t.len(),
        binds(t[i], key, mods, isglobal),
        forall|k: int| 0 <= k < i ==> !binds(#[trigger] t[k], key, mods, isglobal),
    ensures
        lookup(t, key, mods, isglobal) == Some(t[i]),
    decreases i,
{
    if i > 0 {
        let u = t.drop_first();
        assert(!binds(t[0], key, mods, isglobal));
        assert forall|k: int| 0 <= k < i - 1 implies !binds(#[trigger] u[k], key, mods, isglobal) by {
            assert(u[k] == t[k + 1]);
        }
        lemma_lookup_first(u, i - 1, key, mods, isglobal);
    }
}

} // verus!
