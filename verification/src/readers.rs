//! Choices read from what a command prints: one choice per non-empty line, its value and an
//! optional description separated by a tab.
use vstd::prelude::*;
use vstd::utf8::{valid_utf8, decode_utf8};
use crate::text::{
    chars_of, string_of, split_once, split_lines, spec_lines, spec_before, spec_after, spec_find,
    str_from_utf8,
};
use crate::choices::{Choice, ChoiceView};
use crate::aliases::{Alias, AliasView};
use crate::vars::{Var, VarView};
use crate::identifiers::{IdView, spec_display};

verus! {

/// Why choices could not be read.
#[derive(Debug)]
pub enum ErrorsChoiceRead {
    /// The output is not valid UTF-8.
    InvalidUtf8,
}

/// The choice of one line: the text before the first tab, and what comes between the first
/// and the second tab (or the end) as its description when there is a tab.
pub open spec fn choice_of_line(line: Seq<char>) -> ChoiceView {
    let tab = seq!['\t'];
    ChoiceView {
        value: spec_before(line, tab),
        desc: if spec_find(line, tab) >= 0 {
            Some(spec_before(spec_after(line, tab), tab))
        } else {
            None
        },
    }
}

/// The choices of `lines`: one per non-empty line, in order.
pub open spec fn spec_choices_of_lines(lines: Seq<Seq<char>>) -> Seq<ChoiceView>
    decreases lines.len(),
{
    if lines.len() == 0 {
        Seq::empty()
    } else {
        let rest = spec_choices_of_lines(lines.drop_last());
        if lines.last().len() == 0 {
            rest
        } else {
            rest.push(choice_of_line(lines.last()))
        }
    }
}

/// The choice written on `line`.
fn parse_choice_line(line: &str) -> (r: Choice)
    ensures
        r@ == choice_of_line(line@),
{
    let cs = chars_of(line);
    let tab = ['\t'];
    let (value, rest) = split_once(cs.as_slice(), &tab);
    assert(tab@ =~= seq!['\t']);
    let v = string_of(value.as_slice());
    match rest {
        Some(after) => {
            let (desc, _more) = split_once(after.as_slice(), &tab);
            let d = string_of(desc.as_slice());
            Choice::new(v.as_str(), Some(d.as_str()))
        },
        None => Choice::new(v.as_str(), None),
    }
}

/// The choices printed in `output` (see `spec_choices_of_lines`); an error when `output` is
/// not valid UTF-8.
pub fn read_choices(output: &[u8]) -> (r: Result<Vec<Choice>, ErrorsChoiceRead>)
    ensures
        r is Err <==> !valid_utf8(output@),
        r matches Ok(cs) ==> crate::choices::choices_view(cs@) == spec_choices_of_lines(
            spec_lines(decode_utf8(output@)),
        ),
{
    let text = match str_from_utf8(output) {
        Some(t) => t,
        None => {
            return Err(ErrorsChoiceRead::InvalidUtf8);
        },
    };
    let lines = split_lines(text);
    let ghost lv = lines@.map_values(|l: String| l@);
    let mut out: Vec<Choice> = Vec::new();
    let mut i: usize = 0;
    while i < lines.len()
        invariant
            i <= lines@.len(),
            lv == lines@.map_values(|l: String| l@),
            crate::choices::choices_view(out@) == spec_choices_of_lines(lv.subrange(0, i as int)),
        decreases lines@.len() - i,
    {
        assert(lv.subrange(0, i + 1).drop_last() =~= lv.subrange(0, i as int));
        assert(lv.subrange(0, i + 1).last() == lines@[i as int]@);
        if lines[i].as_str().unicode_len() > 0 {
            let ghost before = out@;
            let c = parse_choice_line(lines[i].as_str());
            out.push(c);
            assert(crate::choices::choices_view(out@) =~= crate::choices::choices_view(before).push(
                choice_of_line(lines@[i as int]@),
            ));
        } else {
            proof {
                assert(lines@[i as int]@.len() == 0);
            }
        }
        i = i + 1;
    }
    assert(lv.subrange(0, i as int) =~= lv);
    Ok(out)
}

/// Why the aliases of a file were refused.
#[derive(Debug)]
pub enum ErrorsAliasRead {
    /// An alias name holds a space; the alias is shown as `namespace::name`.
    AliasInvalidName(String),
}

/// `id` moved into `ns`, when there is one.
pub open spec fn placed_id(id: IdView, ns: Option<Seq<char>>) -> IdView {
    match ns {
        Some(n) => IdView { name: id.name, namespace: Some(n) },
        None => id,
    }
}

/// The alias `a` as its file places it: in the namespace `ns`, when there is one.
pub open spec fn placed_alias(a: AliasView, ns: Option<Seq<char>>) -> AliasView {
    AliasView { name: placed_id(a.name, ns), ..a }
}

/// The var `v` as its file places it: in the namespace `ns`, when there is one.
pub open spec fn placed_var(v: VarView, ns: Option<Seq<char>>) -> VarView {
    VarView { name: placed_id(v.name, ns), ..v }
}

/// Whether an alias name is refused: it holds a space.
pub open spec fn invalid_name(name: Seq<char>) -> bool {
    name.contains(' ')
}

/// Whether `name` holds a space.
fn has_space(name: &str) -> (r: bool)
    ensures
        r == invalid_name(name@),
{
    let cs = chars_of(name);
    let mut i: usize = 0;
    while i < cs.len()
        invariant
            i <= cs.len(),
            cs@ == name@,
            forall|j: int| 0 <= j < i ==> cs@[j] != ' ',
        decreases cs.len() - i,
    {
        if cs[i] == ' ' {
            assert(name@[i as int] == ' ');
            return true;
        }
        i = i + 1;
    }
    false
}

/// The aliases read from one file, placed in the file's namespace (`namespace`, when the file
/// has one). The first alias whose name holds a space is refused.
pub fn place_aliases(aliases: &Vec<Alias>, namespace: Option<&str>) -> (r: Result<Vec<Alias>, ErrorsAliasRead>)
    ensures
        r is Ok <==> forall|i: int| 0 <= i < aliases@.len() ==> !invalid_name(#[trigger] aliases@[i]@.name.name),
        r matches Ok(v) ==> v@.len() == aliases@.len() && forall|i: int|
            0 <= i < aliases@.len() ==> #[trigger] v@[i]@ == placed_alias(
                aliases@[i]@,
                opt_str_view(namespace),
            ),
        r matches Err(ErrorsAliasRead::AliasInvalidName(n)) ==> exists|i: int|
            0 <= i < aliases@.len() && invalid_name(#[trigger] aliases@[i]@.name.name) && (forall|j: int|
                0 <= j < i ==> !invalid_name(#[trigger] aliases@[j]@.name.name)) && n@ == spec_display(
                placed_id(aliases@[i]@.name, opt_str_view(namespace)),
            ),
{
    let ghost ns = opt_str_view(namespace);
    let mut out: Vec<Alias> = Vec::new();
    let mut i: usize = 0;
    while i < aliases.len()
        invariant
            i <= aliases@.len(),
            out@.len() == i,
            ns == opt_str_view(namespace),
            forall|j: int| 0 <= j < i ==> #[trigger] out@[j]@ == placed_alias(aliases@[j]@, ns),
            forall|j: int| 0 <= j < i ==> !invalid_name(#[trigger] aliases@[j]@.name.name),
        decreases aliases@.len() - i,
    {
        let mut a = aliases[i].clone();
        match namespace {
            Some(n) => a.update_namespace(n),
            None => {},
        }
        assert(a@ == placed_alias(aliases@[i as int]@, ns));
        if has_space(a.name()) {
            let shown = a.identifier().to_display();
            return Err(ErrorsAliasRead::AliasInvalidName(shown));
        }
        out.push(a);
        i = i + 1;
    }
    Ok(out)
}

/// The vars read from one file, placed in the file's namespace (`namespace`, when the file
/// has one).
pub fn place_vars(vars: &Vec<Var>, namespace: Option<&str>) -> (r: Vec<Var>)
    ensures
        r@.len() == vars@.len(),
        forall|i: int| 0 <= i < vars@.len() ==> #[trigger] r@[i]@ == placed_var(vars@[i]@, opt_str_view(namespace)),
{
    let ghost ns = opt_str_view(namespace);
    let mut out: Vec<Var> = Vec::new();
    let mut i: usize = 0;
    while i < vars.len()
        invariant
            i <= vars@.len(),
            out@.len() == i,
            ns == opt_str_view(namespace),
            forall|j: int| 0 <= j < i ==> #[trigger] out@[j]@ == placed_var(vars@[j]@, ns),
        decreases vars@.len() - i,
    {
        let mut v = vars[i].clone();
        match namespace {
            Some(n) => v.update(n),
            None => {},
        }
        out.push(v);
        i = i + 1;
    }
    out
}

/// The view of an optional text.
pub open spec fn opt_str_view(o: Option<&str>) -> Option<Seq<char>> {
    match o {
        Some(s) => Some(s@),
        None => None,
    }
}

} // verus!
