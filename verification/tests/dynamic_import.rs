use bundler_core::ast::{Expr, ExprOrSpread};
use bundler_core::dynamic::{
    apply_code_generation, rewrite_at, rewrite_dynamic_import, EsmAsyncAssetReference,
};
use bundler_core::pattern_mapping::{ChunkingContext, PatternMapping, ResolveType};
use bundler_core::resolve::{Request, ResolutionEntry, Resolver, ResolveResult};

fn lit(s: &str) -> Expr {
    Expr::Lit(s.to_string())
}

fn ident(s: &str) -> Expr {
    Expr::Ident(s.to_string())
}

fn import_call(args: Vec<ExprOrSpread>) -> Expr {
    Expr::ImportCall(args)
}

fn plain(expr: Expr) -> ExprOrSpread {
    ExprOrSpread { spread: false, expr }
}

fn expect_lit(e: &Expr, expected: &str) {
    match e {
        Expr::Lit(s) => assert_eq!(s, expected),
        other => panic!("expected string literal {:?}, got {:?}", expected, kind_of(other)),
    }
}

fn expect_ident(e: &Expr, expected: &str) {
    match e {
        Expr::Ident(s) => assert_eq!(s, expected),
        other => panic!("expected identifier {:?}, got {:?}", expected, kind_of(other)),
    }
}

fn kind_of(e: &Expr) -> &'static str {
    match e {
        Expr::Lit(_) => "Lit",
        Expr::Ident(_) => "Ident",
        Expr::Num(_) => "Num",
        Expr::Member(_, _) => "Member",
        Expr::Call(_, _) => "Call",
        Expr::ImportCall(_) => "ImportCall",
        Expr::New(_, _) => "New",
        Expr::Concat(_, _) => "Concat",
    }
}

/// Destructure `Promise.reject(new Error(<msg>))` and hand back the message.
fn expect_promise_rejection(e: Expr) -> Expr {
    match e {
        Expr::Call(callee, arg) => {
            match *callee {
                Expr::Member(obj, prop) => {
                    expect_ident(&obj, "Promise");
                    assert_eq!(prop, "reject");
                }
                other => panic!("expected member callee, got {}", kind_of(&other)),
            }
            match *arg {
                Expr::New(ctor, msg) => {
                    expect_ident(&ctor, "Error");
                    *msg
                }
                other => panic!("expected new-expression argument, got {}", kind_of(&other)),
            }
        }
        other => panic!("expected call, got {}", kind_of(&other)),
    }
}

#[test]
fn zero_argument_import_rejects_with_fixed_message() {
    let call = import_call(vec![]);
    let rewritten = rewrite_dynamic_import(call, &PatternMapping::Invalid);
    let msg = expect_promise_rejection(rewritten);
    expect_lit(&msg, "import() expressions require at least 1 argument");
}

#[test]
fn unresolvable_import_embeds_the_argument_in_the_message() {
    let call = import_call(vec![plain(lit("foo"))]);
    let rewritten = rewrite_dynamic_import(call, &PatternMapping::Invalid);
    let msg = expect_promise_rejection(rewritten);
    match msg {
        Expr::Concat(pre, suffix) => {
            expect_lit(&suffix, "\" into a module");
            match *pre {
                Expr::Concat(prefix, arg) => {
                    expect_lit(&prefix, "could not resolve \"");
                    expect_lit(&arg, "foo");
                }
                other => panic!("expected nested concat, got {}", kind_of(&other)),
            }
        }
        other => panic!("expected concat message, got {}", kind_of(&other)),
    }
}

#[test]
fn spread_argument_import_rejects_with_fixed_message() {
    let call = import_call(vec![ExprOrSpread { spread: true, expr: lit("foo") }]);
    let rewritten = rewrite_dynamic_import(call, &PatternMapping::Invalid);
    let msg = expect_promise_rejection(rewritten);
    expect_lit(&msg, "spread operator is illegal in import() expressions.");
}

#[test]
fn internal_import_wraps_loader_call_around_module_id() {
    let call = import_call(vec![plain(lit("./math.js"))]);
    let rewritten = rewrite_dynamic_import(call, &PatternMapping::Internal(7));
    match rewritten {
        Expr::Call(callee, outer_arg) => {
            match *callee {
                Expr::Call(loader, mapped) => {
                    expect_ident(&loader, "__turbopack_require__");
                    assert!(matches!(*mapped, Expr::Num(7)));
                }
                other => panic!("expected loader call, got {}", kind_of(&other)),
            }
            expect_ident(&outer_arg, "__turbopack_import__");
        }
        other => panic!("expected call, got {}", kind_of(&other)),
    }
}

#[test]
fn external_import_keeps_the_supplied_argument() {
    let call = import_call(vec![plain(lit("https://example.test/pkg.js"))]);
    let mapping = PatternMapping::External("https://example.test/pkg.js".to_string());
    let rewritten = rewrite_dynamic_import(call, &mapping);
    match rewritten {
        Expr::ImportCall(args) => {
            assert_eq!(args.len(), 1);
            assert!(!args[0].spread);
            expect_lit(&args[0].expr, "https://example.test/pkg.js");
        }
        other => panic!("expected import call, got {}", kind_of(&other)),
    }
}

#[test]
fn external_import_without_argument_constructs_the_specifier() {
    let call = import_call(vec![]);
    let mapping = PatternMapping::External("https://example.test/pkg.js".to_string());
    let rewritten = rewrite_dynamic_import(call, &mapping);
    match rewritten {
        Expr::ImportCall(args) => {
            assert_eq!(args.len(), 1);
            expect_lit(&args[0].expr, "https://example.test/pkg.js");
        }
        other => panic!("expected import call, got {}", kind_of(&other)),
    }
}

#[test]
fn rewrite_at_reaches_a_nested_call_and_keeps_siblings() {
    // new Wrapper(import("m")) — the import call is child 1 of the
    // new-expression.
    let tree = Expr::New(
        Box::new(ident("Wrapper")),
        Box::new(import_call(vec![plain(lit("m"))])),
    );
    let path: Vec<usize> = vec![1];
    let (rewritten, ok) = rewrite_at(tree, &path, 0, &PatternMapping::Internal(3));
    assert!(ok);
    match rewritten {
        Expr::New(ctor, arg) => {
            expect_ident(&ctor, "Wrapper");
            assert!(matches!(*arg, Expr::Call(_, _)));
        }
        other => panic!("expected new-expression, got {}", kind_of(&other)),
    }
}

#[test]
fn rewrite_at_a_non_import_node_changes_nothing() {
    let tree = ident("noop");
    let path: Vec<usize> = vec![];
    let (rewritten, ok) = rewrite_at(tree, &path, 0, &PatternMapping::Internal(3));
    assert!(!ok);
    expect_ident(&rewritten, "noop");
}

#[test]
fn code_generation_resolves_and_rewrites_the_recorded_coordinate() {
    let rules = vec![ResolutionEntry {
        request: "./math.js".to_string(),
        context: 1,
        result: ResolveResult::Module(42),
    }];
    let mut resolver = Resolver::new(rules);
    let chunk_context = ChunkingContext { module_ids: vec![(42, 7)] };
    let reference = EsmAsyncAssetReference::new(
        1,
        Request::new("./math.js".to_string()),
        vec![1],
    );
    let code_gen = reference.code_generation(&chunk_context, &mut resolver);
    assert_eq!(code_gen.visitors.len(), 1);
    assert_eq!(code_gen.visitors[0].0, vec![1]);
    assert!(matches!(code_gen.visitors[0].1, PatternMapping::Internal(7)));

    let tree = Expr::New(
        Box::new(ident("Wrapper")),
        Box::new(import_call(vec![plain(lit("./math.js"))])),
    );
    let rewritten = apply_code_generation(tree, &code_gen);
    match rewritten {
        Expr::New(_, arg) => match *arg {
            Expr::Call(callee, _) => match *callee {
                Expr::Call(loader, mapped) => {
                    expect_ident(&loader, "__turbopack_require__");
                    assert!(matches!(*mapped, Expr::Num(7)));
                }
                other => panic!("expected loader call, got {}", kind_of(&other)),
            },
            other => panic!("expected rewritten call, got {}", kind_of(&other)),
        },
        other => panic!("expected new-expression, got {}", kind_of(&other)),
    }
}

#[test]
fn unresolved_code_generation_yields_the_invalid_mapping() {
    let mut resolver = Resolver::new(vec![]);
    let chunk_context = ChunkingContext { module_ids: vec![] };
    let reference =
        EsmAsyncAssetReference::new(1, Request::new("missing".to_string()), vec![]);
    let code_gen = reference.code_generation(&chunk_context, &mut resolver);
    assert_eq!(code_gen.visitors.len(), 1);
    assert!(matches!(code_gen.visitors[0].1, PatternMapping::Invalid));

    let tree = import_call(vec![plain(lit("missing"))]);
    let rewritten = apply_code_generation(tree, &code_gen);
    let msg = expect_promise_rejection(rewritten);
    assert!(matches!(msg, Expr::Concat(_, _)));
}

#[test]
fn reference_capabilities_and_description() {
    let reference =
        EsmAsyncAssetReference::new(9, Request::new("./x.mjs".to_string()), vec![]);
    assert!(reference.is_chunkable());
    assert!(reference.is_loaded_async());
    assert_eq!(reference.description(), "dynamic import ./x.mjs");
}

#[test]
fn repeated_code_generation_resolves_once() {
    let rules = vec![ResolutionEntry {
        request: "./a".to_string(),
        context: 1,
        result: ResolveResult::Module(42),
    }];
    let mut resolver = Resolver::new(rules);
    let chunk_context = ChunkingContext { module_ids: vec![] };
    let reference =
        EsmAsyncAssetReference::new(1, Request::new("./a".to_string()), vec![]);
    let first = reference.code_generation(&chunk_context, &mut resolver);
    let second = reference.code_generation(&chunk_context, &mut resolver);
    assert!(matches!(first.visitors[0].1, PatternMapping::Internal(42)));
    assert!(matches!(second.visitors[0].1, PatternMapping::Internal(42)));
    assert_eq!(resolver.resolutions_executed(), 1);
}

#[test]
fn rewrite_at_follows_a_two_step_path() {
    // Wrapper(("pre" + import("m"))) modeled as Call(Wrapper, Concat(...)):
    // the import call sits at child 1 of the call, then child 1 of the concat.
    let tree = Expr::Call(
        Box::new(ident("Wrapper")),
        Box::new(Expr::Concat(
            Box::new(lit("pre")),
            Box::new(import_call(vec![plain(lit("m"))])),
        )),
    );
    let path: Vec<usize> = vec![1, 1];
    let (rewritten, ok) = rewrite_at(tree, &path, 0, &PatternMapping::Internal(5));
    assert!(ok);
    match rewritten {
        Expr::Call(wrapper, concat) => {
            expect_ident(&wrapper, "Wrapper");
            match *concat {
                Expr::Concat(left, right) => {
                    expect_lit(&left, "pre");
                    assert!(matches!(*right, Expr::Call(_, _)));
                }
                other => panic!("expected concat, got {}", kind_of(&other)),
            }
        }
        other => panic!("expected call, got {}", kind_of(&other)),
    }
}

#[test]
fn pattern_mapping_is_total_over_resolve_outcomes() {
    let chunk_context = ChunkingContext { module_ids: vec![(5, 11)] };
    let internal = PatternMapping::resolve_request(
        &chunk_context,
        &ResolveResult::Module(5),
        ResolveType::EsmAsync,
    );
    assert!(matches!(internal, PatternMapping::Internal(11)));

    let unplaced = PatternMapping::resolve_request(
        &chunk_context,
        &ResolveResult::Module(8),
        ResolveType::EsmAsync,
    );
    assert!(matches!(unplaced, PatternMapping::Internal(8)));

    let external = PatternMapping::resolve_request(
        &chunk_context,
        &ResolveResult::External("https://e".to_string()),
        ResolveType::EsmAsync,
    );
    assert!(matches!(external, PatternMapping::External(_)));

    let several = PatternMapping::resolve_request(
        &chunk_context,
        &ResolveResult::Alternatives(vec![1, 2]),
        ResolveType::EsmAsync,
    );
    assert!(matches!(several, PatternMapping::Invalid));

    let unresolved = PatternMapping::resolve_request(
        &chunk_context,
        &ResolveResult::Unresolvable,
        ResolveType::EsmAsync,
    );
    assert!(matches!(unresolved, PatternMapping::Invalid));
}
