//! The music player's side: its plugins and their actions as the library
//! sees them, configuration items, playlist-item handles and playback
//! states. Handles are the host's addresses, kept as integers; zero is the
//! null handle.

use vstd::prelude::*;

verus! {

/// The context in which an action runs when nothing more specific applies.
pub const ACTION_CTX_MAIN: u32 = 0;

/// `c` with an ASCII capital letter taken to lower case.
pub open spec fn ascii_lower(c: char) -> u32 {
    let u = c as u32;
    if 65 <= u <= 90 {
        (u + 32) as u32
    } else {
        u
    }
}

/// The two texts are equal when ASCII letters are compared without case.
pub open spec fn eq_ignore_ascii_case(a: Seq<char>, b: Seq<char>) -> bool {
    a.len() == b.len() && forall|i: int| 0 <= i < a.len() ==> ascii_lower(#[trigger] a[i])
        == ascii_lower(b[i])
}

fn ascii_lower_char(c: char) -> (r: u32)
    ensures
        r == ascii_lower(c),
{
    let u = c as u32;
    if 65 <= u && u <= 90 {
        u + 32
    } else {
        u
    }
}

/// Whether `a` and `b` are equal when ASCII letters are compared without case.
pub fn names_match(a: &str, b: &str) -> (r: bool)
    ensures
        r == eq_ignore_ascii_case(a@, b@),
{
    let n = a.unicode_len();
    if n != b.unicode_len() {
        return false;
    }
    for i in 0..n
        invariant
            n == a@.len() == b@.len(),
            forall|j: int| 0 <= j < i ==> ascii_lower(#[trigger] a@[j]) == ascii_lower(b@[j]),
    {
        if ascii_lower_char(a.get_char(i)) != ascii_lower_char(b.get_char(i)) {
            return false;
        }
    }
    true
}

/// An action that a plugin of the host offers: its handle, its name and
/// the title shown in menus, when the host gives them.
pub struct Action {
    pub ptr: usize,
    pub name: Option<String>,
    pub title: Option<String>,
}

impl Action {
    /// The action behind handle `ptr`.
    pub fn new(ptr: usize, name: Option<String>, title: Option<String>) -> (r: Action)
        ensures
            r == (Action { ptr, name, title }),
    {
        Action { ptr, name, title }
    }

    /// The host's handle of this action.
    pub fn as_ptr(&self) -> (r: usize)
        ensures
            r == self.ptr,
    {
        self.ptr
    }

    /// The action's name.
    pub fn name(&self) -> (r: Option<&str>)
        ensures
            r is Some <==> self.name is Some,
            r is Some ==> r->Some_0@ == self.name->Some_0@,
    {
        match &self.name {
            Some(n) => Some(n.as_str()),
            None => None,
        }
    }

    /// The action's title.
    pub fn title(&self) -> (r: Option<&str>)
        ensures
            r is Some <==> self.title is Some,
            r is Some ==> r->Some_0@ == self.title->Some_0@,
    {
        match &self.title {
            Some(t) => Some(t.as_str()),
            None => None,
        }
    }
}

/// Whether `a` answers to `name`.
pub open spec fn action_named(a: Action, name: Seq<char>) -> bool {
    a.name is Some && eq_ignore_ascii_case(a.name->Some_0@, name)
}

/// A plugin of the host, with its handle, its name and its actions in the
/// order the host lists them.
pub struct Plugin {
    pub ptr: usize,
    pub name: Option<String>,
    pub actions: Vec<Action>,
}

impl Plugin {
    /// The plugin behind handle `ptr`.
    pub fn new(ptr: usize, name: Option<String>, actions: Vec<Action>) -> (r: Plugin)
        ensures
            r == (Plugin { ptr, name, actions }),
    {
        Plugin { ptr, name, actions }
    }

    /// The host's handle of this plugin.
    pub fn as_ptr(&self) -> (r: usize)
        ensures
            r == self.ptr,
    {
        self.ptr
    }

    /// The plugin's name.
    pub fn name(&self) -> (r: Option<&str>)
        ensures
            r is Some <==> self.name is Some,
            r is Some ==> r->Some_0@ == self.name->Some_0@,
    {
        match &self.name {
            Some(n) => Some(n.as_str()),
            None => None,
        }
    }

    /// The plugin's actions, one at a time.
    pub fn actions(&self) -> (r: ActionIter<'_>)
        ensures
            r.actions@ == self.actions@,
            r.pos == 0,
    {
        ActionIter { actions: &self.actions, pos: 0 }
    }
}

/// Walks the actions of one plugin.
pub struct ActionIter<'a> {
    pub actions: &'a Vec<Action>,
    pub pos: usize,
}

impl<'a> ActionIter<'a> {
    /// The next action, if any is left.
    pub fn next(&mut self) -> (r: Option<&'a Action>)
        ensures
            final(self).actions == old(self).actions,
            old(self).pos < old(self).actions@.len() ==> r == Some(&old(self).actions@[old(
                self,
            ).pos as int]) && final(self).pos == old(self).pos + 1,
            old(self).pos >= old(self).actions@.len() ==> r is None && final(self).pos == old(
                self,
            ).pos,
    {
        if self.pos < self.actions.len() {
            let a = &self.actions[self.pos];
            self.pos = self.pos + 1;
            Some(a)
        } else {
            None
        }
    }
}

/// Walks the plugins of the host.
pub struct PluginIter<'a> {
    pub plugins: &'a Vec<Plugin>,
    pub pos: usize,
}

impl<'a> PluginIter<'a> {
    /// The next plugin, if any is left.
    pub fn next(&mut self) -> (r: Option<&'a Plugin>)
        ensures
            final(self).plugins == old(self).plugins,
            old(self).pos < old(self).plugins@.len() ==> r == Some(&old(self).plugins@[old(
                self,
            ).pos as int]) && final(self).pos == old(self).pos + 1,
            old(self).pos >= old(self).plugins@.len() ==> r is None && final(self).pos == old(
                self,
            ).pos,
    {
        if self.pos < self.plugins.len() {
            let p = &self.plugins[self.pos];
            self.pos = self.pos + 1;
            Some(p)
        } else {
            None
        }
    }
}

/// The first action of `acts` that answers to `name`.
pub open spec fn find_in_actions(acts: Seq<Action>, name: Seq<char>) -> Option<Action>
    decreases acts.len(),
{
    if acts.len() == 0 {
        None
    } else if action_named(acts[0], name) {
        Some(acts[0])
    } else {
        find_in_actions(acts.drop_first(), name)
    }
}

/// The first action that answers to `name`, plugin by plugin, each
/// plugin's actions in order.
pub open spec fn find_in_plugins(ps: Seq<Plugin>, name: Seq<char>) -> Option<Action>
    decreases ps.len(),
{
    if ps.len() == 0 {
        None
    } else {
        match find_in_actions(ps[0].actions@, name) {
            Some(a) => Some(a),
            None => find_in_plugins(ps.drop_first(), name),
        }
    }
}

/// The host as the library sees it: its plugins, in the host's order.
pub struct DeadBeef {
    pub plugins: Vec<Plugin>,
}

impl DeadBeef {
    /// A host with these plugins.
    pub fn new(plugins: Vec<Plugin>) -> (r: DeadBeef)
        ensures
            r.plugins == plugins,
    {
        DeadBeef { plugins }
    }

    /// The host's plugins, one at a time.
    pub fn plugins(&self) -> (r: PluginIter<'_>)
        ensures
            r.plugins@ == self.plugins@,
            r.pos == 0,
    {
        PluginIter { plugins: &self.plugins, pos: 0 }
    }

    /// The action that answers to `name`, ASCII case aside: the first one
    /// found, plugin by plugin.
    pub fn find_action_by_name(&self, name: &str) -> (r: Option<&Action>)
        ensures
            r is Some <==> find_in_plugins(self.plugins@, name@) is Some,
            r is Some ==> *r->Some_0 == find_in_plugins(self.plugins@, name@)->Some_0,
    {
        let ghost ps = self.plugins@;
        let mut i: usize = 0;
        assert(ps.skip(0) =~= ps);
        while i < self.plugins.len()
            invariant
                i <= ps.len(),
                ps == self.plugins@,
                find_in_plugins(ps, name@) == find_in_plugins(ps.skip(i as int), name@),
            decreases ps.len() - i,
        {
            let acts = &self.plugins[i].actions;
            let ghost s = acts@;
            let mut k: usize = 0;
            assert(s.skip(0) =~= s);
            while k < acts.len()
                invariant
                    k <= s.len(),
                    s == acts@,
                    i < ps.len(),
                    ps == self.plugins@,
                    s == ps[i as int].actions@,
                    find_in_plugins(ps, name@) == find_in_plugins(ps.skip(i as int), name@),
                    find_in_actions(s, name@) == find_in_actions(s.skip(k as int), name@),
                decreases s.len() - k,
            {
                assert(s.skip(k as int).drop_first() =~= s.skip(k + 1));
                let found = match acts[k].name() {
                    Some(n) => names_match(n, name),
                    None => false,
                };
                if found {
                    proof {
                        assert(ps.skip(i as int)[0] == ps[i as int]);
                        assert(s.skip(k as int)[0] == s[k as int]);
                    }
                    return Some(&acts[k]);
                }
                k = k + 1;
            }
            proof {
                assert(s.skip(k as int).len() == 0);
                assert(ps.skip(i as int)[0] == ps[i as int]);
                assert(ps.skip(i as int).drop_first() =~= ps.skip(i + 1));
            }
            i = i + 1;
        }
        assert(ps.skip(i as int).len() == 0);
        None
    }

    /// The action to run for `name`, and the context it runs in: the one
    /// `find_action_by_name` finds, in the main context.
    pub fn call_action_by_name(&self, name: &str) -> (r: Option<(&Action, u32)>)
        ensures
            r is Some <==> find_in_plugins(self.plugins@, name@) is Some,
            r is Some ==> *r->Some_0.0 == find_in_plugins(self.plugins@, name@)->Some_0
                && r->Some_0.1 == ACTION_CTX_MAIN,
    {
        match self.find_action_by_name(name) {
            Some(a) => Some((a, ACTION_CTX_MAIN)),
            None => None,
        }
    }
}

/// One entry of the host's configuration: a key and its value, each when
/// the host could give it as text.
pub struct DBConfigurationItem {
    pub key: Option<String>,
    pub value: Option<String>,
}

impl DBConfigurationItem {
    /// The entry `key = value`.
    pub fn new(key: Option<String>, value: Option<String>) -> (r: DBConfigurationItem)
        ensures
            r == (DBConfigurationItem { key, value }),
    {
        DBConfigurationItem { key, value }
    }

    /// The entry's key.
    pub fn key(&self) -> (r: Option<&str>)
        ensures
            r is Some <==> self.key is Some,
            r is Some ==> r->Some_0@ == self.key->Some_0@,
    {
        match &self.key {
            Some(k) => Some(k.as_str()),
            None => None,
        }
    }

    /// The entry's value.
    pub fn value(&self) -> (r: Option<&str>)
        ensures
            r is Some <==> self.value is Some,
            r is Some ==> r->Some_0@ == self.value->Some_0@,
    {
        match &self.value {
            Some(v) => Some(v.as_str()),
            None => None,
        }
    }
}

/// What can go wrong when the host hands out an object.
#[allow(non_camel_case_types)]
#[derive(Debug, Clone, Copy, PartialEq, Eq, Structural)]
pub enum DB_Error {
    CreationFailed,
    NoMemory,
}

impl DB_Error {
    /// The text that reports this error.
    pub open spec fn text(self) -> Seq<char> {
        match self {
            DB_Error::CreationFailed => "Creation failed"@,
            DB_Error::NoMemory => "No memory"@,
        }
    }

    /// The text that reports this error.
    pub fn message(&self) -> (r: String)
        ensures
            r@ == self.text(),
    {
        match self {
            DB_Error::CreationFailed => String::from_str("Creation failed"),
            DB_Error::NoMemory => String::from_str("No memory"),
        }
    }
}

/// What can go wrong when a title format is compiled or evaluated.
#[allow(non_camel_case_types)]
#[derive(Debug, Clone, Copy, PartialEq, Eq, Structural)]
pub enum DB_TF_Error {
    CompileError,
    EvalError,
    DBError(DB_Error),
}

impl DB_TF_Error {
    /// The text that reports this error; a host error reports as itself.
    pub open spec fn text(self) -> Seq<char> {
        match self {
            DB_TF_Error::CompileError => "Compile error"@,
            DB_TF_Error::EvalError => "Evaluation error"@,
            DB_TF_Error::DBError(e) => e.text(),
        }
    }

    /// The text that reports this error.
    pub fn message(&self) -> (r: String)
        ensures
            r@ == self.text(),
    {
        match self {
            DB_TF_Error::CompileError => String::from_str("Compile error"),
            DB_TF_Error::EvalError => String::from_str("Evaluation error"),
            DB_TF_Error::DBError(e) => e.message(),
        }
    }
}

impl From<DB_Error> for DB_TF_Error {
    fn from(e: DB_Error) -> (r: DB_TF_Error)
        ensures
            r == DB_TF_Error::DBError(e),
    {
        DB_TF_Error::DBError(e)
    }
}

impl vstd::std_specs::convert::FromSpecImpl<DB_Error> for DB_TF_Error {
    open spec fn obeys_from_spec() -> bool {
        true
    }

    open spec fn from_spec(e: DB_Error) -> DB_TF_Error {
        DB_TF_Error::DBError(e)
    }
}

/// A playlist item of the host, by its handle, which is never null.
pub struct PlItem {
    ptr: usize,
}

impl PlItem {
    #[verifier::type_invariant]
    spec fn non_null(&self) -> bool {
        self.ptr != 0
    }

    /// The address this item stands at.
    pub closed spec fn addr(&self) -> usize {
        self.ptr
    }

    /// The item at `fromptr`; a null handle is refused.
    pub fn from_raw(fromptr: usize) -> (r: Result<PlItem, DB_Error>)
        ensures
            fromptr == 0 ==> r == Err::<PlItem, DB_Error>(DB_Error::CreationFailed),
            fromptr != 0 ==> r is Ok && r->Ok_0.addr() == fromptr,
    {
        if fromptr == 0 {
            Err(DB_Error::CreationFailed)
        } else {
            Ok(PlItem { ptr: fromptr })
        }
    }

    /// The item's handle.
    pub fn as_ptr(&self) -> (r: usize)
        ensures
            r == self.addr(),
            r != 0,
    {
        proof {
            use_type_invariant(self);
        }
        self.ptr
    }
}

/// The host's playback state, by the host's own code for it.
#[derive(Debug, Clone, Copy, PartialEq, Eq, Structural)]
pub struct PlaybackState(pub u32);

/// The host's code for a stopped player.
pub const STATE_STOPPED: u32 = 0;

/// The host's code for a playing player.
pub const STATE_PLAYING: u32 = 1;

/// The host's code for a paused player.
pub const STATE_PAUSED: u32 = 2;

impl PlaybackState {
    /// The state with the host's code `raw`.
    pub fn from_raw(raw: u32) -> (r: PlaybackState)
        ensures
            r.0 == raw,
    {
        PlaybackState(raw)
    }

    /// The host's code for this state.
    pub fn as_raw(&self) -> (r: u32)
        ensures
            r == self.0,
    {
        self.0
    }

    /// The name of this state, as it is written in a log.
    pub open spec fn label(self) -> Seq<char> {
        if self.0 == STATE_PLAYING {
            "PlaybackState::Playing"@
        } else if self.0 == STATE_PAUSED {
            "PlaybackState::Paused"@
        } else if self.0 == STATE_STOPPED {
            "PlaybackState::Stopped"@
        } else {
            "PlaybackState::Unknown"@
        }
    }

    /// The name of this state, as it is written in a log.
    pub fn to_string(&self) -> (r: String)
        ensures
            r@ == self.label(),
    {
        if self.0 == STATE_PLAYING {
            String::from_str("PlaybackState::Playing")
        } else if self.0 == STATE_PAUSED {
            String::from_str("PlaybackState::Paused")
        } else if self.0 == STATE_STOPPED {
            String::from_str("PlaybackState::Stopped")
        } else {
            String::from_str("PlaybackState::Unknown")
        }
    }
}

/// A plugin that can hand the host the address of its descriptor.
pub trait DBPlugin {
    /// The address of the plugin's descriptor.
    fn get_plugin_ptr(&self) -> usize;
}

} // verus!
