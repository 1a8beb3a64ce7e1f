//! The classifier: maps each declaration to one of the 8 ordered output
//! categories, with the dedicated test-module rule.

use vstd::prelude::*;

use crate::model::{CfgExpr, Decl, DeclKind};

verus! {

/// The bytes of the identifier `test`.
pub open spec fn test_name() -> Seq<u8> {
    seq![116u8, 101u8, 115u8, 116u8]
}

/// The bytes of the module name `tests`.
pub open spec fn tests_name() -> Seq<u8> {
    seq![116u8, 101u8, 115u8, 116u8, 115u8]
}

/// The bytes of the callee `any`.
pub open spec fn any_name() -> Seq<u8> {
    seq![97u8, 110u8, 121u8]
}

/// The bytes of the callee `all`.
pub open spec fn all_name() -> Seq<u8> {
    seq![97u8, 108u8, 108u8]
}

/// Whether a conditional-compilation predicate expression syntactically
/// matches a `test` condition: a bare `test` identifier, a group wrapping a
/// match, a list or binary expression with a matching operand, or a call of
/// `any` or `all` with a matching argument.  `Opaque` never matches.
pub open spec fn spec_contains_test(e: CfgExpr) -> bool
    decreases e,
{
    match e {
        CfgExpr::Ident(name) => name@ == test_name(),
        CfgExpr::Grouped(inner) => spec_contains_test(*inner),
        CfgExpr::List(elems) => exists|i: int|
            0 <= i < elems@.len() && spec_contains_test(#[trigger] elems@[i]),
        CfgExpr::Binary(left, right) => spec_contains_test(*left) || spec_contains_test(*right),
        CfgExpr::Call(name, args) => (name@ == any_name() || name@ == all_name())
            && exists|i: int| 0 <= i < args@.len() && spec_contains_test(#[trigger] args@[i]),
        CfgExpr::Opaque => false,
    }
}

/// Whether any of a declaration's conditional-compilation arguments
/// matches a `test` condition.
pub open spec fn spec_has_cfg_test(args: Seq<CfgExpr>) -> bool {
    exists|i: int| 0 <= i < args.len() && spec_contains_test(#[trigger] args[i])
}

/// The test-module rule: a module declaration whose conditional attributes
/// match a `test` condition, or whose name is exactly `tests`.
pub open spec fn spec_is_test_module(d: Decl) -> bool {
    &&& d.kind == DeclKind::Mod
    &&& (spec_has_cfg_test(d.cfg_args@) || match d.mod_name {
        Some(n) => n@ == tests_name(),
        None => false,
    })
}

/// The category a declaration kind falls in when the test-module rule does
/// not apply.
pub open spec fn kind_category(k: DeclKind) -> int {
    match k {
        DeclKind::Use | DeclKind::ExternCrate => 0,
        DeclKind::TypeAlias => 1,
        DeclKind::Const | DeclKind::Static => 2,
        DeclKind::Trait | DeclKind::TraitAlias => 3,
        DeclKind::Struct | DeclKind::Enum | DeclKind::Union | DeclKind::Mod => 4,
        DeclKind::Impl => 5,
        DeclKind::Fn | DeclKind::ForeignMod | DeclKind::MacroCall | DeclKind::Other => 6,
    }
}

/// The category of a declaration: 7 for test modules, otherwise by kind.
pub open spec fn spec_category(d: Decl) -> int {
    if spec_is_test_module(d) {
        7
    } else {
        kind_category(d.kind)
    }
}

/// How many extra blank lines separate consecutive items of one category:
/// imports and constants are packed tightly, everything else gets one.
pub open spec fn spec_blank_lines_after(c: int) -> int {
    if c == 0 || c == 2 {
        0
    } else {
        1
    }
}

fn is_test_ident(name: &Vec<u8>) -> (r: bool)
    ensures
        r == (name@ == test_name()),
{
    let r = name.len() == 4 && name[0] == 116u8 && name[1] == 101u8 && name[2] == 115u8 && name[3]
        == 116u8;
    proof {
        if r {
            assert(name@ =~= test_name());
        }
    }
    r
}

fn is_tests_ident(name: &Vec<u8>) -> (r: bool)
    ensures
        r == (name@ == tests_name()),
{
    let r = name.len() == 5 && name[0] == 116u8 && name[1] == 101u8 && name[2] == 115u8 && name[3]
        == 116u8 && name[4] == 115u8;
    proof {
        if r {
            assert(name@ =~= tests_name());
        }
    }
    r
}

fn is_any_or_all_ident(name: &Vec<u8>) -> (r: bool)
    ensures
        r == (name@ == any_name() || name@ == all_name()),
{
    if name.len() != 3 {
        return false;
    }
    let any = name[0] == 97u8 && name[1] == 110u8 && name[2] == 121u8;
    let all = name[0] == 97u8 && name[1] == 108u8 && name[2] == 108u8;
    proof {
        if any {
            assert(name@ =~= any_name());
        }
        if all {
            assert(name@ =~= all_name());
        }
    }
    any || all
}

/// Whether a predicate expression matches a `test` condition.
pub fn contains_test(e: &CfgExpr) -> (r: bool)
    ensures
        r == spec_contains_test(*e),
    decreases *e,
{
    match e {
        CfgExpr::Ident(name) => is_test_ident(name),
        CfgExpr::Grouped(inner) => contains_test(inner),
        CfgExpr::List(elems) => any_arg_contains_test(elems),
        CfgExpr::Binary(left, right) => contains_test(left) || contains_test(right),
        CfgExpr::Call(name, args) => is_any_or_all_ident(name) && any_arg_contains_test(args),
        CfgExpr::Opaque => false,
    }
}

fn any_arg_contains_test(args: &Vec<CfgExpr>) -> (r: bool)
    ensures
        r == spec_has_cfg_test(args@),
    decreases args@,
{
    let mut i: usize = 0;
    while i < args.len()
        invariant
            i <= args.len(),
            forall|j: int| 0 <= j < i ==> !spec_contains_test(#[trigger] args@[j]),
        decreases args@.len() - i,
    {
        if contains_test(&args[i]) {
            return true;
        }
        i += 1;
    }
    false
}

/// Whether any conditional-compilation argument matches a `test` condition.
pub fn has_cfg_test(args: &Vec<CfgExpr>) -> (r: bool)
    ensures
        r == spec_has_cfg_test(args@),
{
    any_arg_contains_test(args)
}

/// Whether the declaration is routed to the tests bucket.
pub fn is_test_module(d: &Decl) -> (r: bool)
    ensures
        r == spec_is_test_module(*d),
{
    if !(d.kind == DeclKind::Mod) {
        return false;
    }
    if has_cfg_test(&d.cfg_args) {
        return true;
    }
    match &d.mod_name {
        Some(n) => is_tests_ident(n),
        None => false,
    }
}

/// The category of a declaration, always in `[0, 7]`.
pub fn category(d: &Decl) -> (c: usize)
    ensures
        c as int == spec_category(*d),
        c <= 7,
{
    if is_test_module(d) {
        return 7;
    }
    match d.kind {
        DeclKind::Use | DeclKind::ExternCrate => 0,
        DeclKind::TypeAlias => 1,
        DeclKind::Const | DeclKind::Static => 2,
        DeclKind::Trait | DeclKind::TraitAlias => 3,
        DeclKind::Struct | DeclKind::Enum | DeclKind::Union | DeclKind::Mod => 4,
        DeclKind::Impl => 5,
        DeclKind::Fn | DeclKind::ForeignMod | DeclKind::MacroCall | DeclKind::Other => 6,
    }
}

/// Extra blank lines between consecutive items of one category.
pub fn blank_lines_after(category: usize) -> (n: usize)
    ensures
        n as int == spec_blank_lines_after(category as int),
{
    match category {
        0 | 2 => 0,
        _ => 1,
    }
}

} // verus!
