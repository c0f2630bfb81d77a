//! The choices of a var read from a command: from the cache when the output is remembered,
//! else from the output of a run, which is remembered when the run succeeded cleanly.
use vstd::prelude::*;
use vstd::utf8::{valid_utf8, decode_utf8};
use crate::text::{spec_lines, string_of};
use crate::choices::{Choice, choices_view};
use crate::vars::Var;
use crate::vars_cache::VarsCache;
use crate::readers::{read_choices, ErrorsChoiceRead, spec_choices_of_lines};
use crate::resolver::ErrorsResolver;

verus! {

/// The text `String::from_utf8_lossy` makes of `bytes`: invalid sequences become
/// replacement characters.
pub uninterp spec fn utf8_lossy(bytes: Seq<u8>) -> Seq<char>;

/// std's `String::from_utf8_lossy`: the text of `bytes`, each invalid sequence replaced by
/// U+FFFD; valid UTF-8 is decoded as it is (as its documentation says).
#[verifier::external_body]
fn from_utf8_lossy(bytes: &[u8]) -> (r: String)
    ensures
        r@ == utf8_lossy(bytes@),
        valid_utf8(bytes@) ==> r@ == decode_utf8(bytes@),
{
    String::from_utf8_lossy(bytes).into_owned()
}

/// The choices read from the cached output of `command_key`, when it is remembered at `now`;
/// `None` when the command must be run.
pub fn cached_choices<C: VarsCache>(cache: &C, command_key: &str, now: u64) -> (r: Result<
    Option<Vec<Choice>>,
    ErrorsChoiceRead,
>)
    ensures
        r is Ok,
        cache.cached(command_key@, now) is None <==> r matches Ok(None),
        r matches Ok(Some(cs)) ==> (cache.cached(command_key@, now) matches Some(out) && choices_view(cs@)
            == spec_choices_of_lines(spec_lines(out))),
{
    match cache.get(command_key, now) {
        Some(out) => {
            let bytes = out.as_str().as_bytes();
            proof {
                vstd::utf8::encode_utf8_valid_utf8(out@);
                vstd::utf8::encode_utf8_decode_utf8(out@);
            }
            match read_choices(bytes) {
                Ok(cs) => Ok(Some(cs)),
                Err(e) => Err(e),
            }
        },
        None => Ok(None),
    }
}

/// The choices read from what a run of `command_key` printed (`stdout`); the output is
/// remembered at `now` when the run exited with 0 and printed nothing on stderr.
pub fn record_output<C: VarsCache>(
    cache: &mut C,
    command_key: &str,
    exit_code: Option<i32>,
    stdout: &[u8],
    stderr: &[u8],
    now: u64,
) -> (r: Result<Vec<Choice>, ErrorsChoiceRead>)
    ensures
        r is Err <==> !valid_utf8(stdout@),
        r matches Ok(cs) ==> choices_view(cs@) == spec_choices_of_lines(spec_lines(decode_utf8(stdout@))),
        exit_code == Some(0i32) && stderr@.len() == 0 ==> (final(cache).cached(command_key@, now) is Some
            ==> final(cache).cached(command_key@, now) == Some(utf8_lossy(stdout@))),
        !(exit_code == Some(0i32) && stderr@.len() == 0) ==> *final(cache) == *old(cache),
{
    if exit_code == Some(0i32) && stderr.len() == 0 {
        let text = from_utf8_lossy(stdout);
        cache.put(command_key, text.as_str(), now);
    }
    read_choices(stdout)
}

/// What a var's static choices give before anyone is asked: none is an error, a single one
/// is taken, several are left to the user (`None`).
pub fn preselect_static(var: &Var, choices: Vec<Choice>) -> (r: Result<Option<Vec<Choice>>, ErrorsResolver>)
    ensures
        choices@.len() == 0 <==> r is Err,
        r matches Err(ErrorsResolver::NoChoiceWasAvailable(id)) ==> id@ == var@.name,
        r is Err ==> r matches Err(ErrorsResolver::NoChoiceWasAvailable(_)),
        choices@.len() == 1 ==> (r matches Ok(Some(cs)) && cs@ == choices@),
        choices@.len() > 1 ==> r matches Ok(None),
{
    if choices.len() == 0 {
        Err(ErrorsResolver::NoChoiceWasAvailable(var.name()))
    } else if choices.len() == 1 {
        Ok(Some(choices))
    } else {
        Ok(None)
    }
}

} // verus!
