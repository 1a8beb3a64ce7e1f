use selium_order::assemble::{plan_rewrite, reorder_source};
use selium_order::model::{CfgExpr, Decl, DeclKind, ParsedFile, Span};
use syn::spanned::Spanned;

fn to_span(s: proc_macro2::Span) -> Span {
    let start = s.start();
    let end = s.end();
    Span {
        start_line: start.line,
        start_col: start.column,
        end_line: end.line,
        end_col: end.column,
    }
}

fn to_cfg_expr(e: &syn::Expr) -> CfgExpr {
    match e {
        syn::Expr::Path(p) => match p.path.get_ident() {
            Some(id) => CfgExpr::Ident(id.to_string().into_bytes()),
            None => CfgExpr::Opaque,
        },
        syn::Expr::Tuple(t) => CfgExpr::List(t.elems.iter().map(to_cfg_expr).collect()),
        syn::Expr::Binary(b) => CfgExpr::Binary(
            Box::new(to_cfg_expr(&b.left)),
            Box::new(to_cfg_expr(&b.right)),
        ),
        syn::Expr::Group(g) => CfgExpr::Grouped(Box::new(to_cfg_expr(&g.expr))),
        syn::Expr::Paren(p) => CfgExpr::Grouped(Box::new(to_cfg_expr(&p.expr))),
        syn::Expr::Call(c) => {
            if let syn::Expr::Path(p) = &*c.func {
                if let Some(id) = p.path.get_ident() {
                    return CfgExpr::Call(
                        id.to_string().into_bytes(),
                        c.args.iter().map(to_cfg_expr).collect(),
                    );
                }
            }
            CfgExpr::Opaque
        }
        _ => CfgExpr::Opaque,
    }
}

fn item_attrs(item: &syn::Item) -> &[syn::Attribute] {
    match item {
        syn::Item::Const(i) => &i.attrs,
        syn::Item::Enum(i) => &i.attrs,
        syn::Item::ExternCrate(i) => &i.attrs,
        syn::Item::Fn(i) => &i.attrs,
        syn::Item::ForeignMod(i) => &i.attrs,
        syn::Item::Impl(i) => &i.attrs,
        syn::Item::Macro(i) => &i.attrs,
        syn::Item::Mod(i) => &i.attrs,
        syn::Item::Static(i) => &i.attrs,
        syn::Item::Struct(i) => &i.attrs,
        syn::Item::Trait(i) => &i.attrs,
        syn::Item::TraitAlias(i) => &i.attrs,
        syn::Item::Type(i) => &i.attrs,
        syn::Item::Union(i) => &i.attrs,
        syn::Item::Use(i) => &i.attrs,
        _ => &[],
    }
}

fn to_kind(item: &syn::Item) -> DeclKind {
    match item {
        syn::Item::Use(_) => DeclKind::Use,
        syn::Item::ExternCrate(_) => DeclKind::ExternCrate,
        syn::Item::Type(_) => DeclKind::TypeAlias,
        syn::Item::Const(_) => DeclKind::Const,
        syn::Item::Static(_) => DeclKind::Static,
        syn::Item::Trait(_) => DeclKind::Trait,
        syn::Item::TraitAlias(_) => DeclKind::TraitAlias,
        syn::Item::Struct(_) => DeclKind::Struct,
        syn::Item::Enum(_) => DeclKind::Enum,
        syn::Item::Union(_) => DeclKind::Union,
        syn::Item::Mod(_) => DeclKind::Mod,
        syn::Item::Impl(_) => DeclKind::Impl,
        syn::Item::Fn(_) => DeclKind::Fn,
        syn::Item::ForeignMod(_) => DeclKind::ForeignMod,
        syn::Item::Macro(_) => DeclKind::MacroCall,
        _ => DeclKind::Other,
    }
}

fn to_decl(item: &syn::Item) -> Decl {
    let attrs = item_attrs(item);
    let mod_name = match item {
        syn::Item::Mod(m) => Some(m.ident.to_string().into_bytes()),
        _ => None,
    };
    let mut cfg_args = Vec::new();
    for attr in attrs {
        if attr.path().is_ident("cfg") {
            match attr.parse_args::<syn::Expr>() {
                Ok(e) => cfg_args.push(to_cfg_expr(&e)),
                Err(_) => cfg_args.push(CfgExpr::Opaque),
            }
        }
    }
    Decl {
        kind: to_kind(item),
        span: to_span(item.span()),
        attr_spans: attrs.iter().map(|a| to_span(a.span())).collect(),
        mod_name,
        cfg_args,
    }
}

fn parse_src(src: &str) -> ParsedFile {
    let file = syn::parse_file(src).unwrap();
    ParsedFile {
        shebang: file.shebang.clone().map(|s| s.into_bytes()),
        file_attr_spans: file.attrs.iter().map(|a| to_span(a.span())).collect(),
        decls: file.items.iter().map(to_decl).collect(),
    }
}

fn reorder(src: &str) -> String {
    let bytes = src.as_bytes().to_vec();
    let parsed = parse_src(src);
    String::from_utf8(reorder_source(&bytes, &parsed)).unwrap()
}

#[test]
fn scenario_function_import_struct_const() {
    let src = "fn main() {}\nuse std::fmt;\nstruct S;\nconst K: u32 = 1;\n";
    let out = reorder(src);
    assert_eq!(
        out,
        "use std::fmt;\n\nconst K: u32 = 1;\n\nstruct S;\n\nfn main() {}\n"
    );
}

#[test]
fn scenario_shebang_attrs_import_testmod() {
    let src = "#!/usr/bin/env run\n#![allow(dead_code)]\n// note\n#![warn(missing_docs)]\nmod tests {}\nuse std::fmt;\n";
    let out = reorder(src);
    assert_eq!(
        out,
        "#!/usr/bin/env run\n#![allow(dead_code)]\n// note\n#![warn(missing_docs)]\n\nuse std::fmt;\n\nmod tests {}\n"
    );
}

#[test]
fn scenario_empty_file() {
    let src = "";
    assert_eq!(reorder(src), "");
    let parsed = parse_src(src);
    assert_eq!(plan_rewrite(&Vec::new(), &parsed), None);
}

#[test]
fn imports_are_tightly_packed() {
    let src = "use b::c;\nfn f() {}\nuse a::d;\n";
    let out = reorder(src);
    assert_eq!(out, "use b::c;\nuse a::d;\n\nfn f() {}\n");
}

#[test]
fn functions_get_one_blank_line() {
    let src = "fn a() {}\nfn b() {}\n\n\n\nfn c() {}";
    let out = reorder(src);
    assert_eq!(out, "fn a() {}\n\nfn b() {}\n\nfn c() {}\n");
}

#[test]
fn attributes_travel_with_their_declaration() {
    let src = "fn main() {}\n#[derive(Debug)]\n// keep me\n#[repr(C)]\nstruct S {\n    x: u32,\n}\nuse std::fmt;\n";
    let out = reorder(src);
    assert_eq!(
        out,
        "use std::fmt;\n\n#[derive(Debug)]\n// keep me\n#[repr(C)]\nstruct S {\n    x: u32,\n}\n\nfn main() {}\n"
    );
}

#[test]
fn test_modules_go_last() {
    let src = "#[cfg(test)]\nmod checks {}\nmod plain {}\nfn f() {}\n";
    let out = reorder(src);
    assert_eq!(
        out,
        "mod plain {}\n\nfn f() {}\n\n#[cfg(test)]\nmod checks {}\n"
    );
}

#[test]
fn any_predicate_routes_to_tests() {
    let src = "#[cfg(any(test, feature = \"extra\"))]\nmod checks {}\nfn f() {}\n";
    let out = reorder(src);
    assert_eq!(
        out,
        "fn f() {}\n\n#[cfg(any(test, feature = \"extra\"))]\nmod checks {}\n"
    );
}

#[test]
fn tests_module_by_name_goes_last() {
    let src = "mod tests {\n    fn t() {}\n}\nuse std::fmt;\n";
    let out = reorder(src);
    assert_eq!(out, "use std::fmt;\n\nmod tests {\n    fn t() {}\n}\n");
}

#[test]
fn reordering_is_idempotent() {
    let src = "#!/usr/bin/env run\n#![allow(dead_code)]\nfn main() {\n    helper();\n}\n// about the trait\ntrait T {\n    fn m(&self);\n}\nuse std::fmt;\nstatic S: u32 = 0;\nconst K: u32 = 1;\ntype Pair = (u32, u32);\nimpl T for Thing {\n    fn m(&self) {}\n}\nstruct Thing;\nmacro_call!();\nextern crate core;\n#[cfg(test)]\nmod tests {\n    use super::*;\n}\nfn helper() {}\n";
    let once = reorder(src);
    let twice = reorder(&once);
    assert_eq!(twice, once);
    // The second pass decides not to rewrite at all.
    let parsed = parse_src(&once);
    assert_eq!(plan_rewrite(&once.as_bytes().to_vec(), &parsed), None);
}

#[test]
fn canonical_input_is_not_rewritten() {
    let src = "use std::fmt;\n\nfn main() {}\n";
    let parsed = parse_src(src);
    assert_eq!(plan_rewrite(&src.as_bytes().to_vec(), &parsed), None);
}

#[test]
fn changed_input_is_rewritten() {
    let src = "fn main() {}\nuse std::fmt;\n";
    let parsed = parse_src(src);
    let out = plan_rewrite(&src.as_bytes().to_vec(), &parsed).unwrap();
    assert_eq!(String::from_utf8(out).unwrap(), "use std::fmt;\n\nfn main() {}\n");
}

#[test]
fn attrs_only_file_is_stable() {
    let src = "#![allow(dead_code)]\n";
    assert_eq!(reorder(src), "#![allow(dead_code)]\n");
    let parsed = parse_src(src);
    assert_eq!(plan_rewrite(&src.as_bytes().to_vec(), &parsed), None);
}

#[test]
fn header_then_non_import_group() {
    let src = "#![allow(dead_code)]\nstruct S;\n";
    assert_eq!(reorder(src), "#![allow(dead_code)]\n\nstruct S;\n");
}

#[test]
fn categories_emerge_in_fixed_order() {
    let src = "fn f() {}\nimpl Thing {}\nstruct Thing;\ntrait T {}\nconst K: u32 = 0;\ntype A = u32;\nuse std::fmt;\n#[cfg(test)]\nmod tests {}\n";
    let out = reorder(src);
    assert_eq!(
        out,
        "use std::fmt;\n\ntype A = u32;\n\nconst K: u32 = 0;\n\ntrait T {}\n\nstruct Thing;\n\nimpl Thing {}\n\nfn f() {}\n\n#[cfg(test)]\nmod tests {}\n"
    );
}
