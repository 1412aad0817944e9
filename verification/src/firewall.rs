//! The firewall capability: block, allow, flush.
//!
//! The engine talks to the host packet filter only through the
//! [`FirewallBackend`] trait.  A concrete backend programs the kernel
//! ruleset and lives with the rest of the platform code outside this
//! library; [`StubBackend`] is the do-nothing backend for development.
//! [`select_banned_handles`] holds the one piece of flush logic worth
//! proving: picking, out of a listed ruleset, exactly the drop rules of the
//! firewall's own table and chain while every allow rule survives.

use vstd::prelude::*;
use vstd::string::StrSliceExecFns;

verus! {

/// Scope of a flush.
#[derive(Debug, Copy, Clone)]
pub enum FlushTarget {
    /// Every rule the backend installed.
    All,
    /// Only drop rules; allow rules survive.
    Banned,
}

/// A backend rejection, with what the backend had to say.
#[derive(Debug, Clone)]
pub struct FirewallError {
    pub message: String,
}

/// What a firewall backend can do.  Each operation either succeeds or
/// reports a backend error; re-blocking an already blocked address is a
/// benign duplicate.
pub trait FirewallBackend {
    fn block_ip(&self, ip: &str) -> Result<(), FirewallError>;

    fn allow_ip(&self, ip: &str) -> Result<(), FirewallError>;

    fn flush(&self, target: FlushTarget) -> Result<(), FirewallError>;
}

/// A backend that accepts every request and touches nothing; for
/// development on hosts whose packet filter the project does not drive.
pub struct StubBackend;

impl StubBackend {
    pub fn new() -> (r: Result<StubBackend, FirewallError>)
        ensures
            r is Ok,
    {
        Ok(StubBackend)
    }
}

impl FirewallBackend for StubBackend {
    fn block_ip(&self, ip: &str) -> (r: Result<(), FirewallError>)
        ensures
            r is Ok,
    {
        Ok(())
    }

    fn allow_ip(&self, ip: &str) -> (r: Result<(), FirewallError>)
        ensures
            r is Ok,
    {
        Ok(())
    }

    fn flush(&self, target: FlushTarget) -> (r: Result<(), FirewallError>)
        ensures
            r is Ok,
    {
        Ok(())
    }
}

/// The backend this library can offer by itself: the stub.  Platform code
/// that programs a real packet filter constructs its own backend instead.
pub fn get_backend() -> (r: Result<Box<dyn FirewallBackend>, FirewallError>)
    ensures
        r is Ok,
{
    Ok(Box::new(StubBackend))
}

/// One listed rule, as the engine reads it: where the rule sits, whether
/// its statements drop, its comment, and its kernel handle.
#[derive(Debug, Clone)]
pub struct RuleInfo {
    pub table: String,
    pub chain: String,
    pub is_drop_stmt: bool,
    pub comment: Option<String>,
    pub handle: Option<u64>,
}

/// Ghost image of a listed rule.
#[verifier::ext_equal]
pub ghost struct RuleModel {
    pub table: Seq<char>,
    pub chain: Seq<char>,
    pub is_drop_stmt: bool,
    pub comment: Option<Seq<char>>,
    pub handle: Option<u64>,
}

impl View for RuleInfo {
    type V = RuleModel;

    open spec fn view(&self) -> RuleModel {
        RuleModel {
            table: self.table@,
            chain: self.chain@,
            is_drop_stmt: self.is_drop_stmt,
            comment: match self.comment {
                Some(ref c) => Some(c@),
                None => None,
            },
            handle: self.handle,
        }
    }
}

/// Case-insensitive match of one character against a lowercase letter.
pub open spec fn char_eqi(c: char, l: char) -> bool {
    c == l || (c as u32) + 32 == (l as u32)
}

/// Whether the word `drop` occurs in `s`, ignoring ASCII case.
pub open spec fn spec_contains_drop(s: Seq<char>) -> bool {
    exists|i: int|
        0 <= i && i + 4 <= s.len() && char_eqi(#[trigger] s[i], 'd') && char_eqi(s[i + 1], 'r')
            && char_eqi(s[i + 2], 'o') && char_eqi(s[i + 3], 'p')
}

/// A rule that `flush` of the banned scope removes: it sits in the given
/// table and chain, drops (by statement or by its comment naming a drop),
/// and has a handle to delete it by.
pub open spec fn spec_rule_banned(r: RuleModel, table: Seq<char>, chain: Seq<char>) -> bool {
    r.table == table && r.chain == chain && (r.is_drop_stmt || (match r.comment {
        Some(c) => spec_contains_drop(c),
        None => false,
    })) && r.handle is Some
}

/// The handles of the banned rules, in listing order.
pub open spec fn spec_banned_handles(
    rs: Seq<RuleModel>,
    table: Seq<char>,
    chain: Seq<char>,
) -> Seq<u64>
    decreases rs.len(),
{
    if rs.len() == 0 {
        Seq::empty()
    } else {
        let p = spec_banned_handles(rs.drop_last(), table, chain);
        if spec_rule_banned(rs.last(), table, chain) {
            p.push(rs.last().handle.unwrap())
        } else {
            p
        }
    }
}

/// Case-insensitive search for the word `drop`.
fn contains_drop(s: &str) -> (r: bool)
    ensures
        r == spec_contains_drop(s@),
{
    let n = s.unicode_len();
    if n < 4 {
        return false;
    }
    let mut i: usize = 0;
    while i <= n - 4
        invariant
            n == s@.len(),
            4 <= n,
            i <= n - 3,
            forall|j: int|
                0 <= j < i ==> !(char_eqi(#[trigger] s@[j], 'd') && char_eqi(s@[j + 1], 'r')
                    && char_eqi(s@[j + 2], 'o') && char_eqi(s@[j + 3], 'p')),
        decreases n - i,
    {
        let c0 = s.get_char(i);
        let c1 = s.get_char(i + 1);
        let c2 = s.get_char(i + 2);
        let c3 = s.get_char(i + 3);
        if (c0 == 'd' || c0 == 'D') && (c1 == 'r' || c1 == 'R') && (c2 == 'o' || c2 == 'O') && (c3
            == 'p' || c3 == 'P') {
            return true;
        }
        proof {
            assert(!(char_eqi(s@[i as int], 'd') && char_eqi(s@[i as int + 1], 'r') && char_eqi(
                s@[i as int + 2],
                'o',
            ) && char_eqi(s@[i as int + 3], 'p')));
        }
        i += 1;
    }
    false
}

/// String equality on views.
fn rule_str_eq(a: &str, b: &str) -> (r: bool)
    ensures
        r == (a@ == b@),
{
    let x: String = a.to_owned();
    let y: String = b.to_owned();
    x == y
}

/// Pick, out of a listed ruleset, the handles of the drop rules of the
/// given table and chain, in listing order; allow rules and rules of other
/// tables or chains are left alone.
pub fn select_banned_handles(rules: &Vec<RuleInfo>, table: &str, chain: &str) -> (hs: Vec<u64>)
    ensures
        hs@ == spec_banned_handles(rules@.map_values(|r: RuleInfo| r@), table@, chain@),
{
    let ghost rv = rules@.map_values(|r: RuleInfo| r@);
    let mut hs: Vec<u64> = Vec::new();
    let n = rules.len();
    let mut i: usize = 0;
    proof {
        assert(rv.subrange(0, 0) =~= Seq::<RuleModel>::empty());
    }
    while i < n
        invariant
            n == rules@.len(),
            i <= n,
            rv == rules@.map_values(|r: RuleInfo| r@),
            hs@ == spec_banned_handles(rv.subrange(0, i as int), table@, chain@),
        decreases n - i,
    {
        proof {
            assert(rv.subrange(0, i as int + 1).drop_last() =~= rv.subrange(0, i as int));
            assert(rv.subrange(0, i as int + 1).last() == rv[i as int]);
        }
        let rule = &rules[i];
        let mut banned = rule_str_eq(rule.table.as_str(), table) && rule_str_eq(
            rule.chain.as_str(),
            chain,
        );
        if banned {
            let dropper = if rule.is_drop_stmt {
                true
            } else {
                match &rule.comment {
                    Some(c) => contains_drop(c.as_str()),
                    None => false,
                }
            };
            banned = dropper;
        }
        if banned {
            match rule.handle {
                Some(h) => {
                    hs.push(h);
                },
                None => {
                    proof {
                        assert(!spec_rule_banned(rv[i as int], table@, chain@));
                    }
                },
            }
        }
        i += 1;
    }
    proof {
        assert(rv.subrange(0, n as int) =~= rv);
    }
    hs
}

} // verus!
