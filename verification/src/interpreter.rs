//! The lexically scoped environment.
//!
//! Environment nodes form an arena: a node is addressed by its index,
//! and holds its bindings together with the index of its parent.  A
//! parent always has a smaller index than its child, so every parent
//! chain reaches the root.  Closures capture a node by index, which is
//! how several function values can share one scope.

use vstd::prelude::*;
use crate::ast::{Value, ValueV, value_view, value_dup};
use crate::text::str_eq;
use crate::errors::ErrorKind;
use crate::scanner::token_view;

verus! {

/// One scope: its bindings, newest last, and its parent.
pub struct EnvNode {
    pub parent: Option<usize>,
    pub bindings: Vec<(String, Value)>,
}

/// Model of one scope.
#[verifier::ext_equal]
pub struct EnvNodeV {
    pub parent: Option<int>,
    pub bindings: Seq<(Seq<char>, ValueV)>,
}

pub open spec fn node_view(n: EnvNode) -> EnvNodeV {
    EnvNodeV {
        parent: match n.parent {
            Some(p) => Some(p as int),
            None => None,
        },
        bindings: node_bindings_view(n.bindings@),
    }
}

pub open spec fn node_bindings_view(bs: Seq<(String, Value)>) -> Seq<(Seq<char>, ValueV)> {
    bs.map(|i: int, b: (String, Value)| (b.0@, value_view(b.1)))
}

/// The arena of scopes.  Index 0 is the global scope.
pub struct Environment {
    pub nodes: Vec<EnvNode>,
}

pub open spec fn env_view(e: Environment) -> Seq<EnvNodeV> {
    e.nodes@.map(|i: int, n: EnvNode| node_view(n))
}

impl View for Environment {
    type V = Seq<EnvNodeV>;

    open spec fn view(&self) -> Seq<EnvNodeV> {
        env_view(*self)
    }
}

/// Every parent index points at an earlier node, so parent chains are
/// acyclic and end at the root.
pub open spec fn envs_wf(envs: Seq<EnvNodeV>) -> bool {
    forall|i: int|
        0 <= i < envs.len() ==> match (#[trigger] envs[i]).parent {
            Some(p) => 0 <= p < i,
            None => true,
        }
}

/// The value bound to `name` in one binding list: the newest entry wins.
pub open spec fn bindings_lookup(bs: Seq<(Seq<char>, ValueV)>, name: Seq<char>) -> Option<ValueV>
    decreases bs.len(),
{
    if bs.len() == 0 {
        None
    } else if bs.last().0 == name {
        Some(bs.last().1)
    } else {
        bindings_lookup(bs.drop_last(), name)
    }
}

/// Name lookup: the current node's bindings first, then the parent chain.
pub open spec fn env_lookup(envs: Seq<EnvNodeV>, e: int, name: Seq<char>) -> Option<ValueV>
    decreases e,
    when 0 <= e < envs.len() && envs_wf(envs)
{
    match bindings_lookup(envs[e].bindings, name) {
        Some(v) => Some(v),
        None => match envs[e].parent {
            Some(p) => env_lookup(envs, p, name),
            None => None,
        },
    }
}

/// Insertion is always local to the node: it shadows, never overwrites.
pub open spec fn env_insert(
    envs: Seq<EnvNodeV>,
    e: int,
    name: Seq<char>,
    v: ValueV,
) -> Seq<EnvNodeV> {
    envs.update(
        e,
        EnvNodeV { parent: envs[e].parent, bindings: envs[e].bindings.push((name, v)) },
    )
}

/// Replacing the newest binding of `name` in one binding list, if any.
pub open spec fn bindings_update(
    bs: Seq<(Seq<char>, ValueV)>,
    name: Seq<char>,
    v: ValueV,
) -> Option<Seq<(Seq<char>, ValueV)>>
    decreases bs.len(),
{
    if bs.len() == 0 {
        None
    } else if bs.last().0 == name {
        Some(bs.drop_last().push((name, v)))
    } else {
        match bindings_update(bs.drop_last(), name, v) {
            Some(bs2) => Some(bs2.push(bs.last())),
            None => None,
        }
    }
}

/// Update walks the parent chain and mutates the nearest node that
/// defines `name`; `None` reports that no chain node defines it.
pub open spec fn env_update(
    envs: Seq<EnvNodeV>,
    e: int,
    name: Seq<char>,
    v: ValueV,
) -> Option<Seq<EnvNodeV>>
    decreases e,
    when 0 <= e < envs.len() && envs_wf(envs)
{
    match bindings_update(envs[e].bindings, name, v) {
        Some(bs2) => Some(envs.update(e, EnvNodeV { parent: envs[e].parent, bindings: bs2 })),
        None => match envs[e].parent {
            Some(p) => env_update(envs, p, name, v),
            None => None,
        },
    }
}

/// A fresh child scope of `parent`.
pub open spec fn env_wrap(envs: Seq<EnvNodeV>, parent: int) -> Seq<EnvNodeV> {
    envs.push(EnvNodeV { parent: Some(parent), bindings: Seq::empty() })
}

/// An update succeeds exactly when lookup finds the name.
pub proof fn lemma_bindings_update_some(bs: Seq<(Seq<char>, ValueV)>, name: Seq<char>, v: ValueV)
    ensures
        bindings_update(bs, name, v) is Some <==> bindings_lookup(bs, name) is Some,
    decreases bs.len(),
{
    if bs.len() > 0 && bs.last().0 != name {
        lemma_bindings_update_some(bs.drop_last(), name, v);
    }
}

/// The newest binding of `name` in one node, scanned from the back.
fn bindings_get<'a>(bs: &'a Vec<(String, Value)>, name: &str) -> (r: Option<&'a Value>)
    ensures
        match r {
            Some(v) => {
                &&& bindings_lookup(node_bindings_view(bs@), name@) is Some
                &&& value_view(*v) == bindings_lookup(node_bindings_view(bs@), name@)->0
            },
            None => bindings_lookup(node_bindings_view(bs@), name@) is None,
        },
{
    let ghost bsv = node_bindings_view(bs@);
    let mut i: usize = bs.len();
    proof {
        assert(bsv.take(i as int) =~= bsv);
    }
    while i > 0
        invariant
            i <= bs@.len(),
            bsv == node_bindings_view(bs@),
            bsv.len() == bs@.len(),
            bindings_lookup(bsv, name@) == bindings_lookup(bsv.take(i as int), name@),
        decreases i,
    {
        i = i - 1;
        proof {
            assert(bsv.take(i + 1).drop_last() =~= bsv.take(i as int));
            assert(bsv.take(i + 1).last() == bsv[i as int]);
        }
        if str_eq(bs[i].0.as_str(), name) {
            return Some(&bs[i].1);
        }
    }
    proof {
        assert(bsv.take(0) =~= Seq::<(Seq<char>, ValueV)>::empty());
    }
    None
}

impl Environment {
    /// An arena holding just the empty global scope.
    pub fn new() -> (e: Environment)
        ensures
            e@ =~~= seq![EnvNodeV { parent: None, bindings: Seq::empty() }],
            envs_wf(e@),
    {
        let mut nodes: Vec<EnvNode> = Vec::new();
        nodes.push(EnvNode { parent: None, bindings: Vec::new() });
        let e = Environment { nodes };
        proof {
            assert(e@ =~~= seq![EnvNodeV { parent: None, bindings: Seq::empty() }]);
        }
        e
    }

    /// A fresh scope whose parent is `parent`; its index is returned.
    pub fn wrap(&mut self, parent: usize) -> (idx: usize)
        requires
            envs_wf(old(self)@),
            parent < old(self)@.len(),
        ensures
            idx == old(self)@.len(),
            final(self)@ =~~= env_wrap(old(self)@, parent as int),
            envs_wf(final(self)@),
    {
        let idx = self.nodes.len();
        self.nodes.push(EnvNode { parent: Some(parent), bindings: Vec::new() });
        proof {
            assert(self@ =~~= env_wrap(old(self)@, parent as int));
        }
        idx
    }

    /// The value bound to `name`, found in `env`'s scope or the nearest
    /// ancestor that defines it.
    pub fn get(&self, env: usize, name: &str) -> (r: Option<Value>)
        requires
            envs_wf(self@),
            env < self@.len(),
        ensures
            match r {
                Some(v) => {
                    &&& env_lookup(self@, env as int, name@) is Some
                    &&& value_view(v) == env_lookup(self@, env as int, name@)->0
                },
                None => env_lookup(self@, env as int, name@) is None,
            },
    {
        let mut cur: usize = env;
        loop
            invariant
                envs_wf(self@),
                cur < self@.len(),
                env < self@.len(),
                env_lookup(self@, env as int, name@) == env_lookup(self@, cur as int, name@),
            decreases cur,
        {
            proof {
                assert(self@[cur as int] == node_view(self.nodes@[cur as int]));
            }
            match bindings_get(&self.nodes[cur].bindings, name) {
                Some(v) => {
                    return Some(value_dup(v));
                },
                None => {
                    match self.nodes[cur].parent {
                        Some(p) => {
                            cur = p;
                        },
                        None => {
                            return None;
                        },
                    }
                },
            }
        }
    }

    /// Binds `name` in exactly the scope `env`, shadowing any outer
    /// binding of the same name.
    pub fn insert(&mut self, env: usize, name: &str, v: Value)
        requires
            envs_wf(old(self)@),
            env < old(self)@.len(),
        ensures
            final(self)@ =~~= env_insert(old(self)@, env as int, name@, value_view(v)),
            envs_wf(final(self)@),
            final(self)@.len() == old(self)@.len(),
    {
        let ghost old_env = self@;
        let ghost vv = value_view(v);
        self.nodes[env].bindings.push((name.to_owned(), v));
        proof {
            assert(node_view(self.nodes@[env as int]).bindings =~~= old_env[env as int].bindings
                .push((name@, vv)));
            assert(self@ =~~= env_insert(old_env, env as int, name@, vv));
        }
    }

    /// Replaces the binding of `name` in the nearest scope on `env`'s
    /// parent chain that defines it; reports `false` when none does.
    pub fn update(&mut self, env: usize, name: &str, v: Value) -> (r: bool)
        requires
            envs_wf(old(self)@),
            env < old(self)@.len(),
        ensures
            match env_update(old(self)@, env as int, name@, value_view(v)) {
                Some(envs2) => r && final(self)@ =~~= envs2,
                None => !r && final(self)@ =~~= old(self)@,
            },
            envs_wf(final(self)@),
            final(self)@.len() == old(self)@.len(),
    {
        let ghost old_env = self@;
        let ghost vv = value_view(v);
        let mut cur: usize = env;
        loop
            invariant
                old_env == old(self)@,
                envs_wf(old_env),
                self@ == old_env,
                cur < old_env.len(),
                env < old_env.len(),
                env_update(old_env, env as int, name@, vv) == env_update(
                    old_env,
                    cur as int,
                    name@,
                    vv,
                ),
                vv == value_view(v),
            decreases cur,
        {
            proof {
                assert(self@[cur as int] == node_view(self.nodes@[cur as int]));
                lemma_bindings_update_some(old_env[cur as int].bindings, name@, vv);
            }
            if bindings_get(&self.nodes[cur].bindings, name).is_some() {
                let r = self.update_local(cur, name, v);
                assert(r);
                return true;
            }
            match self.nodes[cur].parent {
                Some(p) => {
                    cur = p;
                },
                None => {
                    return false;
                },
            }
        }
    }

    /// Replaces the newest binding of `name` in exactly the scope `env`.
    fn update_local(&mut self, env: usize, name: &str, v: Value) -> (r: bool)
        requires
            envs_wf(old(self)@),
            env < old(self)@.len(),
        ensures
            match bindings_update(old(self)@[env as int].bindings, name@, value_view(v)) {
                Some(bs2) => r && final(self)@ =~~= old(self)@.update(
                    env as int,
                    EnvNodeV { parent: old(self)@[env as int].parent, bindings: bs2 },
                ),
                None => !r && final(self)@ =~~= old(self)@,
            },
            envs_wf(final(self)@),
            final(self)@.len() == old(self)@.len(),
    {
        let ghost old_env = self@;
        let ghost vv = value_view(v);
        let ghost bsv = old_env[env as int].bindings;
        let n = self.nodes[env].bindings.len();
        proof {
            assert(self@[env as int] == node_view(self.nodes@[env as int]));
            assert(bsv.take(n as int) =~= bsv);
            assert(bsv.skip(n as int) =~= Seq::<(Seq<char>, ValueV)>::empty());
            if let Some(bs0) = bindings_update(bsv, name@, vv) {
                assert(bs0 + bsv.skip(n as int) =~= bs0);
            }
        }
        let mut i: usize = n;
        while i > 0
            invariant
                old_env == old(self)@,
                envs_wf(old_env),
                self@ == old_env,
                env < old_env.len(),
                n == self.nodes@[env as int].bindings.len(),
                bsv == old_env[env as int].bindings,
                bsv.len() == n,
                i <= n,
                vv == value_view(v),
                bindings_update(bsv, name@, vv) == map_update_suffix(
                    bindings_update(bsv.take(i as int), name@, vv),
                    bsv.skip(i as int),
                ),
            decreases i,
        {
            i = i - 1;
            proof {
                assert(self@[env as int] == node_view(self.nodes@[env as int]));
                assert(bsv.take(i + 1).drop_last() =~= bsv.take(i as int));
                assert(bsv.take(i + 1).last() == bsv[i as int]);
            }
            if str_eq(self.nodes[env].bindings[i].0.as_str(), name) {
                let name_owned = name.to_owned();
                self.nodes[env].bindings[i] = (name_owned, v);
                proof {
                    let upd = bsv.take(i as int).push((name@, vv));
                    let bs2 = upd + bsv.skip(i + 1);
                    assert(bindings_update(bsv.take(i + 1), name@, vv) == Some(upd)) by {
                        assert(bsv.take(i + 1).drop_last().push((name@, vv)) =~= upd);
                    }
                    assert(bindings_update(bsv, name@, vv) == Some(bs2));
                    assert(node_bindings_view(self.nodes@[env as int].bindings@) =~~= bs2);
                    assert(self@ =~~= old_env.update(
                        env as int,
                        EnvNodeV { parent: old_env[env as int].parent, bindings: bs2 },
                    ));
                }
                return true;
            }
            proof {
                assert(bsv[i as int].0 != name@);
                match bindings_update(bsv.take(i as int), name@, vv) {
                    Some(bs2) => {
                        assert(bindings_update(bsv.take(i + 1), name@, vv) == Some(
                            bs2.push(bsv[i as int]),
                        ));
                        assert(bsv.skip(i as int) =~= seq![bsv[i as int]] + bsv.skip(i + 1));
                        assert(bs2.push(bsv[i as int]) + bsv.skip(i + 1) =~= bs2 + bsv.skip(
                            i as int,
                        ));
                    },
                    None => {
                        assert(bindings_update(bsv.take(i + 1), name@, vv) is None);
                    },
                }
            }
        }
        proof {
            assert(bsv.take(0) =~= Seq::<(Seq<char>, ValueV)>::empty());
        }
        false
    }
}

/// Appending untouched newer bindings to the result of an update on the
/// older ones.
pub open spec fn map_update_suffix(
    r: Option<Seq<(Seq<char>, ValueV)>>,
    suffix: Seq<(Seq<char>, ValueV)>,
) -> Option<Seq<(Seq<char>, ValueV)>> {
    match r {
        Some(bs) => Some(bs + suffix),
        None => None,
    }
}

// ---------------------------------------------------------------------
// The interpreter facade: a global scope with the builtins, and `run`.

/// The interpreter: its arena of scopes.  Index 0 is the global scope,
/// created with the `clock` builtin bound.
pub struct Interpreter {
    pub env: Environment,
}

/// The interpreter's standing invariant.
pub open spec fn iwf(i: Interpreter) -> bool {
    &&& crate::eval::env_ok(i.env@)
    &&& i.env@.len() >= 1
}

/// What a finished run means: the outcome and the printed lines are
/// exactly the mathematical interpreter's on some parsed statement
/// sequence and sampled time, with a top-level `Return` reported as an
/// error.
pub open spec fn run_matches(
    st0: crate::eval::StateV,
    st1: crate::eval::StateV,
    ss: Seq<crate::ast::StmtV>,
    now: i64,
    r: Result<Value, crate::errors::ErrorKind>,
) -> bool {
    let stepped = crate::eval::sp_program(st0, 0, ss, crate::ast::ValueV::Nil, now, u64::MAX as nat);
    &&& crate::eval::stmts_plain(ss)
    &&& st1 == stepped.0
    &&& match stepped.1 {
        Ok(v) => {
            if v is Return {
                r matches Err(e) && e matches crate::errors::ErrorKind::EvaluateError(m) && m@
                    == crate::errors::msg_return_outside()
            } else {
                r matches Ok(rv) && value_view(rv) == v
            }
        },
        Err(m) => r matches Err(e) && e matches crate::errors::ErrorKind::EvaluateError(m2) && m2@
            == m,
    }
}

/// What `run` promises once scanning is past: the program the parser's
/// model yields from the scanned tokens is the one whose evaluation the
/// outcome and output match; scan and parse failures are reported
/// exactly.
pub open spec fn run_post(
    code: Seq<char>,
    st0: crate::eval::StateV,
    st1: crate::eval::StateV,
    r: Result<Value, crate::errors::ErrorKind>,
) -> bool {
    match crate::scanner::scan_spec(code, 0, 1) {
        Ok(ts) => match crate::parser::sp_parse(ts, 0, Seq::empty()) {
            crate::parser::PStep::Next(ss, pos) => {
                &&& (match r {
                    Ok(_) => true,
                    Err(e) => e matches crate::errors::ErrorKind::EvaluateError(_),
                })
                &&& exists|now: i64| #[trigger] run_matches(st0, st1, ss, now, r)
            },
            crate::parser::PStep::Fail(ft, fm) => {
                &&& r matches Err(e)
                &&& (r matches Err(e2) ==> e2 matches crate::errors::ErrorKind::ParseError {
                    tok,
                    t,
                } && token_view(tok) == ft && t@ == fm)
            },
        },
        Err(_) => r matches Err(e) && e matches crate::errors::ErrorKind::ScanError(l, m),
    }
}

impl Interpreter {
    /// A fresh interpreter: one global scope holding `clock`.
    pub fn new() -> (i: Interpreter)
        ensures
            iwf(i),
            i.env@ =~~= seq![
                EnvNodeV {
                    parent: None,
                    bindings: seq![
                        (
                            "clock"@,
                            ValueV::BuiltinFunc("clock"@, 0 as nat, crate::ast::Builtin::Clock),
                        ),
                    ],
                },
            ],
            env_lookup(i.env@, 0, "clock"@) == Some(
                ValueV::BuiltinFunc("clock"@, 0 as nat, crate::ast::Builtin::Clock),
            ),
    {
        let mut env = Environment::new();
        let name = String::from_str("clock");
        let v = Value::BuiltinFunc(name, 0, crate::ast::Builtin::Clock);
        proof {
            crate::eval::lemma_state_ok_insert(env@, 0, "clock"@, value_view(v));
        }
        env.insert(0, "clock", v);
        let i = Interpreter { env };
        proof {
            let bs = i.env@[0].bindings;
            assert(bs.last() == ("clock"@, ValueV::BuiltinFunc(
                "clock"@,
                0 as nat,
                crate::ast::Builtin::Clock,
            )));
            assert(i.env@ =~~= seq![
                EnvNodeV {
                    parent: None,
                    bindings: seq![
                        (
                            "clock"@,
                            ValueV::BuiltinFunc("clock"@, 0 as nat, crate::ast::Builtin::Clock),
                        ),
                    ],
                },
            ]);
        }
        i
    }

    /// Scans, parses and runs a source text against the interpreter's
    /// scopes, appending everything `print` emits to `out`.
    ///
    /// A malformed lexeme reports the scanner's error exactly; a
    /// grammar violation reports a parse error; otherwise the outcome,
    /// the scopes and the printed lines are exactly the mathematical
    /// interpreter's on the parsed statements, and a value is never
    /// `Return`-tagged: a top-level `return` is reported as an error.
    #[verifier::loop_isolation(false)]
    pub fn run(&mut self, code: &str, out: &mut Vec<String>) -> (r: Result<Value, ErrorKind>)
        requires
            iwf(*old(self)),
            code@.len() < usize::MAX,
        ensures
            iwf(*final(self)),
            match r {
                Ok(v) => !(value_view(v) is Return),
                Err(e) => match e {
                    ErrorKind::ScanError(l, m) => crate::scanner::scan_spec(code@, 0, 1)
                        == Err::<Seq<crate::scanner::TokenV>, (int, Seq<char>)>((l as int, m@)),
                    _ => crate::scanner::scan_spec(code@, 0, 1) is Ok,
                },
            },
            r matches Ok(v) ==> crate::scanner::scan_spec(code@, 0, 1) is Ok,
            run_post(
                code@,
                crate::eval::st_of(old(self).env@, old(out)@),
                crate::eval::st_of(final(self).env@, final(out)@),
                r,
            ),
            (match r {
                Ok(_) => false,
                Err(e) => !(e matches ErrorKind::EvaluateError(_)),
            }) ==> final(self).env@ == old(self).env@ && final(out)@ == old(out)@,
    {
        let scanner = crate::scanner::Scanner::new(code);
        let tokens = match scanner.scan_tokens() {
            Ok(ts) => ts,
            Err(e) => {
                return Err(e);
            },
        };
        let ghost ts0 = crate::scanner::tokens_view(tokens@);
        proof {
            assert(crate::scanner::scan_spec(code@, 0, 1) == Ok::<
                Seq<crate::scanner::TokenV>,
                (int, Seq<char>),
            >(ts0));
        }
        let mut parser = crate::parser::Parser::new(tokens);
        let stmts = match parser.parse() {
            Ok(ss) => ss,
            Err(e) => {
                return Err(e);
            },
        };
        proof {
            assert(crate::parser::sp_parse(ts0, 0, Seq::empty())
                == crate::parser::PStep::Next(
                crate::ast::stmts_view(stmts@),
                parser.current as int,
            ));
        }
        let now_u = crate::builtins::now_secs();
        let now: i64 = if now_u > (i64::MAX as u64) {
            i64::MAX
        } else {
            now_u as i64
        };
        let fuel: u64 = u64::MAX;
        let ghost ssv = crate::ast::stmts_view(stmts@);
        let ghost st0 = crate::eval::st_of(self.env@, out@);
        proof {
            crate::ast::lemma_stmts_view_index(stmts@);
            crate::eval::lemma_stmts_plain_index(ssv);
            assert(ssv.skip(0) =~= ssv);
        }
        let mut last = Value::Nil;
        let mut i: usize = 0;
        while i < stmts.len()
            invariant
                i <= stmts@.len(),
                crate::eval::env_ok(self.env@),
                self.env@.len() >= 1,
                crate::eval::sp_program(st0, 0, ssv, ValueV::Nil, now, fuel as nat)
                    == crate::eval::sp_program(
                    crate::eval::st_of(self.env@, out@),
                    0,
                    ssv.skip(i as int),
                    value_view(last),
                    now,
                    fuel as nat,
                ),
            decreases stmts@.len() - i,
        {
            proof {
                assert(ssv[i as int] == crate::ast::stmt_view(stmts@[i as int]));
                assert(ssv.skip(i as int)[0] == ssv[i as int]);
                assert(ssv.skip(i as int).drop_first() =~= ssv.skip(i + 1));
            }
            let res = crate::eval::interpret(&mut self.env, 0, &stmts[i], now, fuel, out);
            match res {
                Ok(v) => {
                    last = v;
                    i = i + 1;
                },
                Err(e) => {
                    proof {
                        assert(crate::scanner::scan_spec(code@, 0, 1) == Ok::<
                            Seq<crate::scanner::TokenV>,
                            (int, Seq<char>),
                        >(ts0));
                        assert(crate::parser::sp_parse(ts0, 0, Seq::empty())
                            matches crate::parser::PStep::Next(ss2, _p) && ss2 == ssv);
                        assert(st0 == crate::eval::st_of(old(self).env@, old(out)@));
                        assert(run_matches(
                            st0,
                            crate::eval::st_of(self.env@, out@),
                            ssv,
                            now,
                            Err::<Value, ErrorKind>(e),
                        ));
                        assert(run_post(
                            code@,
                            st0,
                            crate::eval::st_of(self.env@, out@),
                            Err::<Value, ErrorKind>(e),
                        ));
                    }
                    return Err(e);
                },
            }
        }
        proof {
            assert(ssv.skip(stmts@.len() as int) =~= Seq::<crate::ast::StmtV>::empty());
        }
        if matches!(last, Value::Return(_)) {
            let e = crate::errors::err_return_outside();
            proof {
                assert(crate::scanner::scan_spec(code@, 0, 1) == Ok::<
                    Seq<crate::scanner::TokenV>,
                    (int, Seq<char>),
                >(ts0));
                assert(crate::parser::sp_parse(ts0, 0, Seq::empty())
                    matches crate::parser::PStep::Next(ss2, _p) && ss2 == ssv);
                assert(st0 == crate::eval::st_of(old(self).env@, old(out)@));
                assert(run_matches(
                    st0,
                    crate::eval::st_of(self.env@, out@),
                    ssv,
                    now,
                    Err::<Value, ErrorKind>(e),
                ));
                assert(run_post(
                    code@,
                    st0,
                    crate::eval::st_of(self.env@, out@),
                    Err::<Value, ErrorKind>(e),
                ));
            }
            Err(e)
        } else {
            proof {
                assert(crate::scanner::scan_spec(code@, 0, 1) == Ok::<
                    Seq<crate::scanner::TokenV>,
                    (int, Seq<char>),
                >(ts0));
                assert(crate::parser::sp_parse(ts0, 0, Seq::empty())
                    matches crate::parser::PStep::Next(ss2, _p) && ss2 == ssv);
                assert(st0 == crate::eval::st_of(old(self).env@, old(out)@));
                assert(run_matches(
                    st0,
                    crate::eval::st_of(self.env@, out@),
                    ssv,
                    now,
                    Ok::<Value, ErrorKind>(last),
                ));
                assert(run_post(
                    code@,
                    st0,
                    crate::eval::st_of(self.env@, out@),
                    Ok::<Value, ErrorKind>(last),
                ));
            }
            Ok(last)
        }
    }
}

} // verus!
