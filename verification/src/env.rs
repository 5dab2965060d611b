//! Reading settings from a snapshot of the process environment.

use crate::repo::transaction_repo::opt_view;
use vstd::prelude::*;

verus! {

#[verifier::external_type_specification]
#[verifier::external_body]
pub struct ExParseBoolError(std::str::ParseBoolError);

/// The value of `key` in an environment snapshot: that of its first entry,
/// `None` where there is none, `Some(None)` where the value is not Unicode.
pub open spec fn env_lookup(env: Seq<(String, Option<String>)>, key: Seq<char>) -> Option<Option<Seq<char>>>
    decreases env.len(),
{
    if env.len() == 0 {
        None
    } else if env[0].0@ == key {
        Some(opt_view(env[0].1))
    } else {
        env_lookup(env.drop_first(), key)
    }
}

/// How a variable of the snapshot reads.
pub enum EnvValue {
    /// The variable is not set.
    NotPresent,
    /// The variable is set to something that is not Unicode.
    NotUnicode,
    Present(String),
}

/// Looks `key` up in the snapshot (what `std::env::var` does in the live
/// environment).
pub fn read_var(env: &Vec<(String, Option<String>)>, key: &str) -> (r: EnvValue)
    ensures
        env_lookup(env@, key@) is None <==> r is NotPresent,
        env_lookup(env@, key@) == Some(None::<Seq<char>>) <==> r is NotUnicode,
        forall|v: Seq<char>| env_lookup(env@, key@) == Some(Some(v)) <==> (r matches EnvValue::Present(s) && s@ == v),
{
    let wanted = key.to_owned();
    let mut i: usize = 0;
    assert(env@.skip(0) =~= env@);
    while i < env.len()
        invariant
            i <= env@.len(),
            env_lookup(env@, key@) == env_lookup(env@.skip(i as int), key@),
            wanted@ == key@,
        decreases env@.len() - i,
    {
        proof {
            assert(env@.skip(i as int).drop_first() =~= env@.skip(i + 1));
            assert(env@.skip(i as int)[0] == env@[i as int]);
        }
        if env[i].0 == wanted {
            assert(env_lookup(env@.skip(i as int), key@) == Some(opt_view(env@[i as int].1)));
            let r = match &env[i].1 {
                Some(v) => EnvValue::Present(v.clone()),
                None => EnvValue::NotUnicode,
            };
            return r;
        }
        i = i + 1;
    }
    assert(env@.skip(i as int).len() == 0);
    EnvValue::NotPresent
}

/// Calls `str::parse::<bool>`, which accepts exactly `"true"` and `"false"`.
#[verifier::external_body]
fn parse_bool_std(s: &str) -> (r: Result<bool, std::str::ParseBoolError>)
    ensures
        r matches Ok(b) ==> (b && s@ == "true"@) || (!b && s@ == "false"@),
        r is Err ==> s@ != "true"@ && s@ != "false"@,
{
    s.parse::<bool>()
}

/// `"true"` or `"false"` as a boolean, `None` for any other text.
pub fn parse_bool(s: &str) -> (r: Option<bool>)
    ensures
        r == (if s@ == "true"@ {
            Some(true)
        } else if s@ == "false"@ {
            Some(false)
        } else {
            None::<bool>
        }),
{
    proof {
        reveal_strlit("true");
        reveal_strlit("false");
        // The two literals differ, as their lengths show.
        assert("true"@.len() != "false"@.len());
    }
    match parse_bool_std(s) {
        Ok(b) => Some(b),
        Err(_) => None,
    }
}

} // verus!
