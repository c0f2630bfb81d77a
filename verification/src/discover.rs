//! Discovery aliases: one alias per var offered for discovery, that prints the var's values.
use vstd::prelude::*;
use crate::text::{push_str, string_of};
use crate::identifiers::{IdView, spec_new_name};
use crate::choices::ChoiceView;
use crate::vars::{Var, VarView};
use crate::aliases::{Alias, AliasView};
use crate::dependencies::Dependencies;

verus! {

/// The values of `vals`, separated by single spaces.
pub open spec fn join_values(vals: Seq<ChoiceView>) -> Seq<char>
    decreases vals.len(),
{
    if vals.len() == 0 {
        Seq::empty()
    } else if vals.len() == 1 {
        vals[0].value
    } else {
        join_values(vals.drop_last()) + seq![' '] + vals.last().value
    }
}

/// The head of the command that prints static values one per line: `printf '%s\n' `.
pub open spec fn printf_prefix() -> Seq<char> {
    seq!['p', 'r', 'i', 'n', 't', 'f', ' ', '\'', '%', 's', '\\', 'n', '\'', ' ']
}

/// The command that lists the values of `v`: a `printf` of its static choices, else its own
/// command; an input var has none.
pub open spec fn discover_command(v: VarView) -> Option<Seq<char>> {
    if v.choices.len() > 0 {
        Some(printf_prefix() + join_values(v.choices))
    } else {
        match v.from_command {
            Some(c) => Some(c),
            None => None,
        }
    }
}

/// The discovery alias of `v`: named `discover_<name>` in the var's namespace, described as
/// `discover: <name>`, running `cmd`.
pub open spec fn discover_alias(v: VarView, cmd: Seq<char>) -> AliasView {
    AliasView {
        name: IdView {
            name: spec_new_name(seq!['d', 'i', 's', 'c', 'o', 'v', 'e', 'r', '_'] + v.name.name),
            namespace: v.name.namespace,
        },
        desc: seq!['d', 'i', 's', 'c', 'o', 'v', 'e', 'r', ':', ' '] + v.name.name,
        alias: cmd,
    }
}

/// The discovery aliases of `vars`, in order: one for each var offered for discovery that
/// has a command to list its values.
pub open spec fn spec_discover_aliases(vars: Seq<VarView>) -> Seq<AliasView>
    decreases vars.len(),
{
    if vars.len() == 0 {
        Seq::empty()
    } else {
        let rest = spec_discover_aliases(vars.drop_last());
        let v = vars.last();
        if v.discover && discover_command(v) is Some {
            rest.push(discover_alias(v, discover_command(v)->0))
        } else {
            rest
        }
    }
}

/// The views of a sequence of vars.
pub open spec fn vars_views(vars: Seq<Var>) -> Seq<VarView> {
    vars.map_values(|v: Var| v@)
}

/// The views of a sequence of aliases.
pub open spec fn aliases_views(aliases: Seq<Alias>) -> Seq<AliasView> {
    aliases.map_values(|a: Alias| a@)
}

/// The command listing the values of `var`, if it has one.
fn discover_command_of(var: &Var) -> (r: Option<String>)
    ensures
        match r {
            Some(s) => discover_command(var@) == Some(s@),
            None => discover_command(var@) is None,
        },
{
    let choices = var.choices();
    if choices.len() > 0 {
        let mut v: Vec<char> = Vec::new();
        let head = "printf '%s\\n' ";
        proof {
            reveal_strlit("printf '%s\\n' ");
        }
        push_str(&mut v, head);
        let ghost start = v@;
        let ghost cs = var@.choices;
        assert(cs =~= crate::choices::choices_view(choices@));
        let mut i: usize = 0;
        while i < choices.len()
            invariant
                i <= choices.len(),
                cs == crate::choices::choices_view(choices@),
                v@ == start + join_values(cs.subrange(0, i as int)),
            decreases choices.len() - i,
        {
            if i > 0 {
                v.push(' ');
            }
            push_str(&mut v, choices[i].value());
            proof {
                let sub = cs.subrange(0, i + 1);
                assert(sub.drop_last() =~= cs.subrange(0, i as int));
                if i == 0 {
                    assert(cs.subrange(0, 0) =~= Seq::<ChoiceView>::empty());
                }
            }
            i = i + 1;
        }
        assert(cs.subrange(0, i as int) =~= cs);
        Some(string_of(v.as_slice()))
    } else if var.is_command() {
        Some(var.command().to_owned())
    } else {
        None
    }
}

/// The discovery aliases of `vars` (see `spec_discover_aliases`).
pub fn generate_discover_aliases(vars: &[Var]) -> (r: Vec<Alias>)
    ensures
        aliases_views(r@) == spec_discover_aliases(vars_views(vars@)),
{
    let mut out: Vec<Alias> = Vec::new();
    let mut i: usize = 0;
    while i < vars.len()
        invariant
            i <= vars.len(),
            aliases_views(out@) == spec_discover_aliases(vars_views(vars@.subrange(0, i as int))),
        decreases vars.len() - i,
    {
        let var = &vars[i];
        let ghost before = out@;
        proof {
            assert(vars_views(vars@.subrange(0, i + 1)).drop_last() =~= vars_views(
                vars@.subrange(0, i as int),
            ));
            assert(vars_views(vars@.subrange(0, i + 1)).last() == var@);
        }
        if var.discover() {
            match discover_command_of(var) {
                Some(cmd) => {
                    let vname = var.name();
                    let mut nv: Vec<char> = Vec::new();
                    let p1 = "discover_";
                    proof {
                        reveal_strlit("discover_");
                    }
                    push_str(&mut nv, p1);
                    push_str(&mut nv, vname.name());
                    let mut dv: Vec<char> = Vec::new();
                    let p2 = "discover: ";
                    proof {
                        reveal_strlit("discover: ");
                    }
                    push_str(&mut dv, p2);
                    push_str(&mut dv, vname.name());
                    let name_s = string_of(nv.as_slice());
                    let desc_s = string_of(dv.as_slice());
                    assert(name_s@ =~= seq!['d', 'i', 's', 'c', 'o', 'v', 'e', 'r', '_'] + var@.name.name);
                    assert(desc_s@ =~= seq!['d', 'i', 's', 'c', 'o', 'v', 'e', 'r', ':', ' '] + var@.name.name);
                    let mut alias = Alias::new(name_s.as_str(), desc_s.as_str(), cmd.as_str());
                    match var.namespace() {
                        Some(ns) => alias.update_namespace(ns),
                        None => {},
                    }
                    assert(alias@ == discover_alias(var@, cmd@));
                    out.push(alias);
                    proof {
                        assert(aliases_views(out@) =~= aliases_views(before).push(
                            discover_alias(var@, cmd@),
                        ));
                    }
                },
                None => {},
            }
        }
        i = i + 1;
    }
    assert(vars@.subrange(0, i as int) =~= vars@);
    out
}

} // verus!
