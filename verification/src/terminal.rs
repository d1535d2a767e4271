//! The command that opens a terminal in a project directory.
use vstd::prelude::*;
use crate::text::{chars_of, has_prefix, push_suffix, string_of, views};

verus! {

/// `path` with a leading `~/` replaced by `home`.
pub open spec fn home_expanded(path: Seq<char>, home: Seq<char>) -> Seq<char> {
    if has_prefix(path, seq!['~', '/']) {
        home + path.skip(1)
    } else {
        path
    }
}

fn expand_home(path: &str, home: &str) -> (r: String)
    ensures
        r@ == home_expanded(path@, home@),
{
    let p = chars_of(path);
    if p.len() >= 2 && p[0] == '~' && p[1] == '/' {
        assert(p@.take(2) =~= seq!['~', '/']);
        let mut out = chars_of(home);
        push_suffix(&mut out, &p, 1);
        string_of(out.as_slice())
    } else {
        proof {
            if has_prefix(p@, seq!['~', '/']) {
                assert(p@[0] == p@.take(2)[0]);
                assert(p@[1] == p@.take(2)[1]);
            }
        }
        string_of(p.as_slice())
    }
}

/// The program that launches the terminal.
pub fn terminal_program() -> (r: &'static str)
    ensures
        r@ == "uwsm-app"@,
{
    "uwsm-app"
}

/// The arguments that open a `ghostty` terminal whose working directory is `path`
/// (with a leading `~/` expanded against `home`).
pub fn terminal_args(path: &str, home: &str) -> (r: Vec<String>)
    ensures
        views(r@) == seq!["--"@, "ghostty"@, "--working-directory="@ + home_expanded(path@, home@)],
{
    let abs = chars_of(expand_home(path, home).as_str());
    let mut d = chars_of("--working-directory=");
    push_suffix(&mut d, &abs, 0);
    assert(abs@.skip(0) =~= abs@);
    let dir = string_of(d.as_slice());
    let mut r: Vec<String> = Vec::new();
    r.push("--".to_owned());
    r.push("ghostty".to_owned());
    r.push(dir);
    assert(views(r@) =~= seq!["--"@, "ghostty"@, "--working-directory="@ + home_expanded(path@, home@)]);
    r
}

} // verus!
