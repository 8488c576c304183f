//! Conventions of the host interface: the status code of each error, and the
//! comma-separated form in which tags arrive.
use vstd::prelude::*;

use crate::text::string_push;
use crate::vault::tokenize::strings_view;
use crate::vaultcore::service::CoreError;

verus! {

pub const STATUS_OK: i32 = 0;

pub const ERR_WRONG_PASSWORD: i32 = 1;

pub const ERR_COOLDOWN: i32 = 2;

pub const ERR_IO: i32 = 3;

pub const ERR_BIO_UNAVAILABLE: i32 = 4;

pub const ERR_BIO_NOT_BOUND: i32 = 5;

pub const ERR_FORMAT: i32 = 6;

pub const ERR_INVALID_ARG: i32 = 7;

pub const ERR_INTERNAL: i32 = 8;

/// Status code of an error.
pub open spec fn spec_status(e: CoreError) -> i32 {
    match e {
        CoreError::WrongPassword(_) => ERR_WRONG_PASSWORD,
        CoreError::Cooldown(_) => ERR_COOLDOWN,
        CoreError::Io(_) => ERR_IO,
        CoreError::BioUnavailable => ERR_BIO_UNAVAILABLE,
        CoreError::BioNotBound => ERR_BIO_NOT_BOUND,
        CoreError::Format(_) => ERR_FORMAT,
        CoreError::Internal(_) => ERR_INTERNAL,
    }
}

pub fn status_code(e: &CoreError) -> (c: i32)
    ensures
        c == spec_status(*e),
{
    match e {
        CoreError::WrongPassword(_) => ERR_WRONG_PASSWORD,
        CoreError::Cooldown(_) => ERR_COOLDOWN,
        CoreError::Io(_) => ERR_IO,
        CoreError::BioUnavailable => ERR_BIO_UNAVAILABLE,
        CoreError::BioNotBound => ERR_BIO_NOT_BOUND,
        CoreError::Format(_) => ERR_FORMAT,
        CoreError::Internal(_) => ERR_INTERNAL,
    }
}

/// Comma-separated fields after `n` characters: (finished fields, current
/// field).
pub open spec fn fields_upto(cs: Seq<char>, n: nat) -> (Seq<Seq<char>>, Seq<char>)
    decreases n,
{
    if n == 0 {
        (seq![], seq![])
    } else {
        let (f, cur) = fields_upto(cs, (n - 1) as nat);
        let c = cs[n - 1];
        if c == ',' {
            (f.push(cur), seq![])
        } else {
            (f, cur.push(c))
        }
    }
}

/// Tags of a comma-separated list: none for an empty list, otherwise every
/// field between commas (empty fields included, as `str::split` gives them).
pub open spec fn spec_tags_from_csv(cs: Seq<char>) -> Seq<Seq<char>> {
    if cs.len() == 0 {
        seq![]
    } else {
        let (f, cur) = fields_upto(cs, cs.len());
        f.push(cur)
    }
}

pub fn tags_from_csv(csv: &str) -> (r: Vec<String>)
    ensures
        strings_view(r@) == spec_tags_from_csv(csv@),
{
    let ghost cs = csv@;
    let mut fields: Vec<String> = Vec::new();
    let mut cur = String::new();
    let mut any = false;
    proof {
        broadcast use vstd::string::axiom_spec_iter;
    }
    for c in it: csv.chars()
        invariant
            cs == csv@,
            it.seq() == cs,
            any == (it.index() > 0),
            (strings_view(fields@), cur@) == fields_upto(cs, it.index() as nat),
    {
        let ghost f0 = fields@;
        any = true;
        if c == ',' {
            let done = cur;
            fields.push(done);
            cur = String::new();
            proof {
                assert(strings_view(fields@) =~= strings_view(f0).push(done@));
            }
        } else {
            string_push(&mut cur, c);
        }
    }
    if !any {
        proof {
            assert(strings_view(Seq::<String>::empty()) =~= Seq::<Seq<char>>::empty());
        }
        return Vec::new();
    }
    let ghost f0 = fields@;
    fields.push(cur);
    proof {
        assert(strings_view(fields@) =~= strings_view(f0).push(fields@.last()@));
    }
    fields
}

} // verus!
