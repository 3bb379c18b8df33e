//! The evaluation environment: the bindings in scope, innermost scope last,
//! and the external commands that can be run by name.

use vstd::prelude::*;
use std::rc::Rc;
use crate::val::{Val, Lambda, FuncOrCommand, Ty};
use crate::script_eval::{find_key, map_get, map_set};
use crate::tree::rc_clone;
use crate::val::clone_val;

verus! {

/// A value as the contracts see it.
pub enum SVal {
    Number(i64),
    Str(Seq<char>),
    Lambda(Lambda),
    Nil,
}

pub open spec fn val_view(v: Val) -> SVal {
    match v {
        Val::Number(n) => SVal::Number(n),
        Val::Str(s) => SVal::Str(s@),
        Val::Lambda(l) => SVal::Lambda(l),
        Val::Nil => SVal::Nil,
    }
}

pub open spec fn sval_ty(v: SVal) -> Ty {
    match v {
        SVal::Number(_) => Ty::Number,
        SVal::Str(_) => Ty::Str,
        SVal::Lambda(_) => Ty::Lambda,
        SVal::Nil => Ty::Nil,
    }
}

/// The kinds of things that can go wrong while evaluating.
#[derive(Debug, Clone, Copy, PartialEq, Eq, Hash, Structural)]
pub enum EvalErrorKind {
    /// a binding is used that has not been defined
    BindingDoesNotExist,
    /// too many parameters are supplied to a function
    TooManyParams,
    /// too few parameters are supplied to a function
    TooFewParams,
    /// something that is not a lambda is called
    CallNonLambda,
    /// a function or command that does not exist is called
    FuncOrCommandDoesNotExist,
    /// something that cannot be displayed is passed as an argument to a command
    UndisplayableCommandArg,
    /// running a command failed
    FailedRunningCommand,
    /// a binary operation is applied to values that are not both numbers
    BinOpOnNonNumbers { lhs_ty: Ty, rhs_ty: Ty },
    /// a condition that is not a boolean
    NonBoolCond,
}

/// One scope: names bound to values.
#[derive(Debug, PartialEq)]
pub struct Frame {
    bindings: Vec<(String, Val)>,
}

impl Frame {
    pub closed spec fn view(&self) -> Seq<(Seq<char>, SVal)> {
        self.bindings@.map_values(|p: (String, Val)| (p.0@, val_view(p.1)))
    }

    pub fn new() -> (f: Frame)
        ensures
            f.view() == Seq::<(Seq<char>, SVal)>::empty(),
    {
        let f = Frame { bindings: Vec::new() };
        proof {
            assert(f.view() =~= Seq::<(Seq<char>, SVal)>::empty());
        }
        f
    }

    fn find(&self, k: &str) -> (i: usize)
        ensures
            i == find_key(self.view(), k@, 0),
            i <= self.bindings@.len(),
    {
        let ghost m = self.view();
        let mut i: usize = 0;
        while i < self.bindings.len()
            invariant
                i <= self.bindings@.len(),
                m == self.view(),
                m.len() == self.bindings@.len(),
                find_key(m, k@, 0) == find_key(m, k@, i as int),
            decreases self.bindings@.len() - i,
        {
            if str_eq(self.bindings[i].0.as_str(), k) {
                return i;
            }
            i = i + 1;
        }
        i
    }

    pub fn get(&self, k: &str) -> (r: Option<Val>)
        ensures
            match map_get(self.view(), k@) {
                Some(v) => r matches Some(x) && val_view(x) == v,
                None => r is None,
            },
    {
        let i = self.find(k);
        if i < self.bindings.len() {
            Some(clone_val(&self.bindings[i].1))
        } else {
            None
        }
    }

    pub fn set(&mut self, k: String, v: Val)
        ensures
            final(self).view() == map_set(old(self).view(), k@, val_view(v)),
    {
        let ghost kv = k@;
        let ghost vv = val_view(v);
        let i = self.find(k.as_str());
        if i < self.bindings.len() {
            self.bindings.set(i, (k, v));
        } else {
            self.bindings.push((k, v));
        }
        proof {
            assert(self.view() =~= map_set(old(self).view(), kv, vv));
        }
    }

    /// A copy of the scope.
    pub fn duplicate(&self) -> (f: Frame)
        ensures
            f.view() == self.view(),
    {
        let mut b: Vec<(String, Val)> = Vec::new();
        let mut i: usize = 0;
        while i < self.bindings.len()
            invariant
                i <= self.bindings@.len(),
                b@.len() == i,
                forall|j: int| 0 <= j < i ==> #[trigger] b@[j] == self.bindings@[j],
            decreases self.bindings@.len() - i,
        {
            let (k, v) = (&self.bindings[i].0, &self.bindings[i].1);
            b.push((k.clone(), clone_val(v)));
            i = i + 1;
        }
        let f = Frame { bindings: b };
        proof {
            assert(f.bindings@ =~= self.bindings@);
        }
        f
    }
}

/// Whether two strings are equal.
fn str_eq(a: &str, b: &str) -> (r: bool)
    ensures
        r == (a@ == b@),
{
    let n = a.unicode_len();
    if n != b.unicode_len() {
        return false;
    }
    let mut i: usize = 0;
    while i < n
        invariant
            n == a@.len(),
            n == b@.len(),
            i <= n,
            forall|j: int| 0 <= j < i ==> a@[j] == b@[j],
        decreases n - i,
    {
        if a.get_char(i) != b.get_char(i) {
            return false;
        }
        i = i + 1;
    }
    proof {
        assert(a@ =~= b@);
    }
    true
}

/// The external commands that can be run, by name: each name with the path of
/// its executable. A name that occurs twice stands for its last path.
#[derive(Debug, PartialEq)]
pub struct Commands {
    entries: Vec<(String, String)>,
}

/// The path of command `k`: that of the last entry with name `k`.
pub open spec fn command_path(m: Seq<(Seq<char>, Seq<char>)>, k: Seq<char>) -> Option<Seq<char>>
    decreases m.len(),
{
    if m.len() == 0 {
        None
    } else if m.last().0 == k {
        Some(m.last().1)
    } else {
        command_path(m.drop_last(), k)
    }
}

impl Commands {
    pub closed spec fn view(&self) -> Seq<(Seq<char>, Seq<char>)> {
        self.entries@.map_values(|p: (String, String)| (p.0@, p.1@))
    }

    /// The commands with the names and paths `entries`.
    pub fn new(entries: Vec<(String, String)>) -> (c: Commands)
        ensures
            c.view() == entries@.map_values(|p: (String, String)| (p.0@, p.1@)),
    {
        Commands { entries }
    }

    /// The path of the command named `name`.
    pub fn get(&self, name: &str) -> (r: Option<String>)
        ensures
            match command_path(self.view(), name@) {
                Some(p) => r matches Some(s) && s@ == p,
                None => r is None,
            },
    {
        let mut j = self.entries.len();
        proof {
            assert(self.view().take(j as int) =~= self.view());
        }
        while j > 0
            invariant
                j <= self.entries@.len(),
                command_path(self.view(), name@) == command_path(self.view().take(j as int), name@),
            decreases j,
        {
            proof {
                assert(self.view().take(j as int).drop_last() =~= self.view().take(j - 1));
            }
            if str_eq(self.entries[j - 1].0.as_str(), name) {
                return Some(self.entries[j - 1].1.clone());
            }
            j = j - 1;
        }
        None
    }
}

/// The value bound to `k` in the innermost scope of `st` that binds it.
pub open spec fn lookup(st: Seq<Seq<(Seq<char>, SVal)>>, k: Seq<char>) -> Option<SVal>
    decreases st.len(),
{
    if st.len() == 0 {
        None
    } else {
        match map_get(st.last(), k) {
            Some(v) => Some(v),
            None => lookup(st.drop_last(), k),
        }
    }
}

/// The scopes with `k` bound to `v` in the innermost one.
pub open spec fn bind(st: Seq<Seq<(Seq<char>, SVal)>>, k: Seq<char>, v: SVal) -> Seq<Seq<(Seq<char>, SVal)>> {
    st.update(st.len() - 1, map_set(st.last(), k, v))
}

pub open spec fn frames_view(fs: Seq<Frame>) -> Seq<Seq<(Seq<char>, SVal)>> {
    fs.map_values(|f: Frame| f.view())
}

/// What `Env::get_func_or_command` gives: a lambda bound to the name comes
/// first, then a command of that name; a binding that is not a lambda, with no
/// such command, cannot be called.
pub open spec fn spec_func_or_command(
    st: Seq<Seq<(Seq<char>, SVal)>>,
    cmds: Seq<(Seq<char>, Seq<char>)>,
    k: Seq<char>,
) -> Result<SFuncOrCommand, EvalErrorKind> {
    match (lookup(st, k), command_path(cmds, k)) {
        (Some(SVal::Lambda(l)), _) => Ok(SFuncOrCommand::Func(l)),
        (_, Some(p)) => Ok(SFuncOrCommand::Command(p)),
        (Some(_), None) => Err(EvalErrorKind::CallNonLambda),
        (None, None) => Err(EvalErrorKind::FuncOrCommandDoesNotExist),
    }
}

pub enum SFuncOrCommand {
    Func(Lambda),
    Command(Seq<char>),
}

/// The bindings in scope and the commands that can be run.
#[derive(Debug, PartialEq)]
pub struct Env {
    frames: Vec<Frame>,
    commands: Rc<Commands>,
}

impl Env {
    /// The scopes, innermost last.
    pub closed spec fn scopes(&self) -> Seq<Seq<(Seq<char>, SVal)>> {
        frames_view(self.frames@)
    }

    /// The commands.
    pub closed spec fn commands(&self) -> Seq<(Seq<char>, Seq<char>)> {
        self.commands.view()
    }

    pub closed spec fn wf(&self) -> bool {
        self.frames@.len() >= 1
    }

    pub(crate) closed spec fn frame_seq(&self) -> Seq<Frame> {
        self.frames@
    }

    pub(crate) proof fn lemma_scopes(&self)
        ensures
            self.scopes() == frames_view(self.frame_seq()),
    {
    }

    /// The value bound to `name` in this environment's scopes followed by the
    /// scopes `inner`.
    pub(crate) fn lookup_with(&self, inner: &Vec<Frame>, name: &str) -> (r: Option<Val>)
        ensures
            match lookup(frames_view(self.frame_seq() + inner@), name@) {
                Some(v) => r matches Some(x) && val_view(x) == v,
                None => r is None,
            },
    {
        lookup_in(&self.frames, inner, name)
    }

    /// An environment with one empty scope and the commands `commands` (each
    /// a name and the path of its executable).
    pub fn new(commands: Vec<(String, String)>) -> (e: Env)
        ensures
            e.wf(),
            e.scopes() == seq![Seq::<(Seq<char>, SVal)>::empty()],
            e.commands() == commands@.map_values(|p: (String, String)| (p.0@, p.1@)),
    {
        let mut frames: Vec<Frame> = Vec::new();
        frames.push(Frame::new());
        let e = Env { frames, commands: Rc::new(Commands::new(commands)) };
        proof {
            assert(e.scopes() =~= seq![Seq::<(Seq<char>, SVal)>::empty()]);
        }
        e
    }

    /// A new environment inside this one: it sees this one's bindings, and
    /// its own bindings stay its own.
    pub fn create_child(&self) -> (e: Env)
        ensures
            e.wf(),
            e.scopes() == self.scopes().push(Seq::<(Seq<char>, SVal)>::empty()),
            e.commands() == self.commands(),
    {
        let mut frames: Vec<Frame> = Vec::new();
        let mut i: usize = 0;
        while i < self.frames.len()
            invariant
                i <= self.frames@.len(),
                frames@.len() == i,
                forall|j: int| 0 <= j < i ==> (#[trigger] frames@[j]).view() == self.frames@[j].view(),
            decreases self.frames@.len() - i,
        {
            frames.push(self.frames[i].duplicate());
            i = i + 1;
        }
        frames.push(Frame::new());
        let e = Env { frames, commands: rc_clone(&self.commands) };
        proof {
            assert(e.scopes() =~= self.scopes().push(Seq::<(Seq<char>, SVal)>::empty()));
        }
        e
    }

    /// Binds `name` to `val` in the innermost scope.
    pub fn store_binding(&mut self, name: String, val: Val)
        requires
            old(self).wf(),
        ensures
            final(self).wf(),
            final(self).scopes() == bind(old(self).scopes(), name@, val_view(val)),
            final(self).commands() == old(self).commands(),
    {
        let ghost kv = name@;
        let ghost vv = val_view(val);
        let mut top = self.frames.pop().unwrap();
        top.set(name, val);
        self.frames.push(top);
        proof {
            assert(self.scopes() =~= bind(old(self).scopes(), kv, vv));
        }
    }

    /// The value bound to `name` in the innermost scope that binds it.
    pub fn get_binding(&self, name: &str) -> (r: Option<Val>)
        ensures
            match lookup(self.scopes(), name@) {
                Some(v) => r matches Some(x) && val_view(x) == v,
                None => r is None,
            },
    {
        lookup_in(&self.frames, &Vec::new(), name)
    }

    /// What calling `name` runs: a lambda bound to it, or else the command of
    /// that name.
    pub fn get_func_or_command(&self, name: &str) -> (r: Result<FuncOrCommand, EvalErrorKind>)
        ensures
            match spec_func_or_command(self.scopes(), self.commands(), name@) {
                Ok(SFuncOrCommand::Func(l)) => r == Ok::<FuncOrCommand, EvalErrorKind>(FuncOrCommand::Func(l)),
                Ok(SFuncOrCommand::Command(p)) => r matches Ok(FuncOrCommand::Command(s)) && s@ == p,
                Err(k) => r == Err::<FuncOrCommand, EvalErrorKind>(k),
            },
    {
        let b = self.get_binding(name);
        let c = self.commands.get(name);
        match (b, c) {
            (Some(Val::Lambda(l)), _) => Ok(FuncOrCommand::Func(l)),
            (_, Some(p)) => Ok(FuncOrCommand::Command(p)),
            (Some(_), None) => Err(EvalErrorKind::CallNonLambda),
            (None, None) => Err(EvalErrorKind::FuncOrCommandDoesNotExist),
        }
    }
}

/// The value bound to `name` in the scopes `outer` followed by `inner`.
pub(crate) fn lookup_in(outer: &Vec<Frame>, inner: &Vec<Frame>, name: &str) -> (r: Option<Val>)
    ensures
        match lookup(frames_view(outer@ + inner@), name@) {
            Some(v) => r matches Some(x) && val_view(x) == v,
            None => r is None,
        },
{
    let ghost all = outer@ + inner@;
    let mut j = inner.len();
    proof {
        assert(outer@ + inner@.take(j as int) =~= all);
    }
    while j > 0
        invariant
            j <= inner@.len(),
            all == outer@ + inner@,
            lookup(frames_view(all), name@) == lookup(frames_view(outer@ + inner@.take(j as int)), name@),
        decreases j,
    {
        proof {
            assert(frames_view(outer@ + inner@.take(j as int)).drop_last() =~= frames_view(outer@ + inner@.take(j - 1)));
            assert(frames_view(outer@ + inner@.take(j as int)).last() == inner@[j - 1].view());
        }
        match inner[j - 1].get(name) {
            Some(v) => {
                return Some(v);
            },
            None => {},
        }
        j = j - 1;
    }
    let mut k = outer.len();
    proof {
        assert(outer@ + inner@.take(0) =~= outer@.take(k as int));
    }
    while k > 0
        invariant
            k <= outer@.len(),
            all == outer@ + inner@,
            lookup(frames_view(all), name@) == lookup(frames_view(outer@.take(k as int)), name@),
        decreases k,
    {
        proof {
            assert(frames_view(outer@.take(k as int)).drop_last() =~= frames_view(outer@.take(k - 1)));
            assert(frames_view(outer@.take(k as int)).last() == outer@[k - 1].view());
        }
        match outer[k - 1].get(name) {
            Some(v) => {
                return Some(v);
            },
            None => {},
        }
        k = k - 1;
    }
    proof {
        assert(frames_view(outer@.take(0)) =~= Seq::<Seq<(Seq<char>, SVal)>>::empty());
    }
    None
}

/// What a binding stores is what a lookup of its name then gives; the other
/// names keep what they had.
pub proof fn law_lookup_after_bind(st: Seq<Seq<(Seq<char>, SVal)>>, k: Seq<char>, v: SVal, other: Seq<char>)
    requires
        st.len() >= 1,
    ensures
        lookup(bind(st, k, v), k) == Some(v),
        other != k ==> lookup(bind(st, k, v), other) == lookup(st, other),
{
    let m = st.last();
    lemma_map_set_get(m, k, v, k);
    lemma_map_set_get(m, k, v, other);
    let b = bind(st, k, v);
    assert(b.drop_last() =~= st.drop_last());
    assert(b.last() == map_set(m, k, v));
}

/// A new innermost scope with nothing in it changes no lookup.
pub proof fn law_child_scope_sees_parent(st: Seq<Seq<(Seq<char>, SVal)>>, k: Seq<char>)
    ensures
        lookup(st.push(Seq::<(Seq<char>, SVal)>::empty()), k) == lookup(st, k),
{
    let c = st.push(Seq::<(Seq<char>, SVal)>::empty());
    assert(c.drop_last() =~= st);
    assert(find_key(Seq::<(Seq<char>, SVal)>::empty(), k, 0) == 0);
}

proof fn lemma_find_key_bounds<V>(m: Seq<(Seq<char>, V)>, k: Seq<char>, i: int)
    requires
        0 <= i <= m.len(),
    ensures
        i <= find_key(m, k, i) <= m.len(),
        find_key(m, k, i) < m.len() ==> m[find_key(m, k, i)].0 == k,
        forall|j: int| i <= j < find_key(m, k, i) ==> m[j].0 != k,
    decreases m.len() - i,
{
    if i < m.len() && m[i].0 != k {
        lemma_find_key_bounds(m, k, i + 1);
    }
}

proof fn lemma_find_key_first<V>(m: Seq<(Seq<char>, V)>, k: Seq<char>, i: int, j: int)
    requires
        0 <= i <= j < m.len(),
        m[j].0 == k,
        forall|q: int| i <= q < j ==> m[q].0 != k,
    ensures
        find_key(m, k, i) == j,
    decreases j - i,
{
    if i < j {
        lemma_find_key_first(m, k, i + 1, j);
    }
}

/// Reading a key back from a map that was just set.
pub proof fn lemma_map_set_get<V>(m: Seq<(Seq<char>, V)>, k: Seq<char>, v: V, q: Seq<char>)
    ensures
        map_get(map_set(m, k, v), q) == (if q == k { Some(v) } else { map_get(m, q) }),
{
    lemma_find_key_bounds(m, k, 0);
    lemma_find_key_bounds(m, q, 0);
    let i = find_key(m, k, 0);
    let s = map_set(m, k, v);
    lemma_find_key_bounds(s, q, 0);
    if i < m.len() {
        if q == k {
            lemma_find_key_first(s, q, 0, i);
        } else {
            let iq = find_key(m, q, 0);
            if iq < m.len() {
                assert(forall|z: int| 0 <= z < iq ==> s[z].0 != q);
                lemma_find_key_first(s, q, 0, iq);
            } else {
                let sq = find_key(s, q, 0);
                if sq < s.len() {
                    assert(s[sq].0 == q);
                    assert(m[sq].0 == q);
                    assert(false);
                }
            }
        }
    } else {
        if q == k {
            assert(forall|z: int| 0 <= z < m.len() ==> s[z].0 != q);
            lemma_find_key_first(s, q, 0, m.len() as int);
        } else {
            let iq = find_key(m, q, 0);
            if iq < m.len() {
                lemma_find_key_first(s, q, 0, iq);
            } else {
                let sq = find_key(s, q, 0);
                if sq < s.len() {
                    if sq < m.len() {
                        assert(m[sq].0 == q);
                        assert(false);
                    }
                }
            }
        }
    }
}

} // verus!
