//! The `embed`, `embed_str` and `embed_dir` intrinsics.
//!
//! The pass runs in two halves around the host, which owns the file
//! system. `embed_requests` finds every intrinsic call of a module in walk
//! order and checks its arguments (D412): a path argument must be a plain
//! string literal with `/` separators, and `embed_dir` takes only the named
//! arguments `glob` (a string literal) and `hidden` (a bool literal), each
//! at most once. The host then resolves each request relative to the file
//! of the call and answers what it found; `apply_embeds` turns the answers
//! into the embedded values, diagnostics and warnings, and rewrites the
//! calls: `embed` becomes the file's bytes, `embed_str` its text, and
//! `embed_dir` an `EmbeddedDir.new([...])` of the directory's entries in
//! byte order of their paths.

use vstd::prelude::*;
use crate::ast::{Block, ElseBranch, Expr, ExprKind, FnBody, FnDecl, Item, LetDecl, MatchArm, MatchArmBody, Module, PeerFile, RecordLitField, Span, Stmt, TestDecl};
use crate::embed_resolve::{backslash_message, check_path_backslash, embed_dir_paths, passes_glob, EMBED_DIR_LARGE_BYTES, EMBED_DIR_LARGE_COUNT};
use crate::field_cache::ipa::names_view;
use crate::order::{increasing, name_lt};
use crate::field_cache::scc_cache::insert_name;
use crate::ast::RecordLitField as LitField;
use crate::text::{copy_str, decimal, push_decimal, push_str, str_eq};

verus! {

/// What an intrinsic call embeds.
#[derive(Debug)]
pub enum EmbedKind {
    /// `embed("file")`: the file's bytes.
    File,
    /// `embed_str("file")`: the file's text.
    Text,
    /// `embed_dir("dir", glob: .., hidden: ..)`: the files of a directory.
    Dir { glob: Option<String>, hidden: bool },
}

/// One intrinsic call to be resolved by the host.
#[derive(Debug)]
pub struct EmbedRequest {
    pub kind: EmbedKind,
    /// The path as written, relative to the file of the call.
    pub rel: String,
    /// The file of the call.
    pub file_id: u32,
    pub span: Span,
}

/// A diagnostic of the pass.
#[derive(Debug)]
pub struct EmbedDiag {
    pub message: String,
    pub span: Span,
}

/// `EmbedKind` by its characters.
pub enum KindView {
    File,
    Text,
    Dir { glob: Option<Seq<char>>, hidden: bool },
}

pub open spec fn kind_view(k: EmbedKind) -> KindView {
    match k {
        EmbedKind::File => KindView::File,
        EmbedKind::Text => KindView::Text,
        EmbedKind::Dir { glob, hidden } => KindView::Dir {
            glob: match glob {
                Some(g) => Some(g@),
                None => None,
            },
            hidden,
        },
    }
}

/// The intrinsic a call invokes, if `e` is a call of one by its plain name.
pub open spec fn intrinsic_of(e: Expr) -> Option<Seq<char>> {
    match e.kind {
        ExprKind::Call { func, .. } => match func.kind {
            ExprKind::Ident(n) => if n@ == "embed"@ || n@ == "embed_str"@ || n@ == "embed_dir"@ {
                Some(n@)
            } else {
                None
            },
            _ => None,
        },
        _ => None,
    }
}

/// The diagnostic for a call of `embed` or `embed_str` without exactly one
/// argument.
pub open spec fn arity_message(name: Seq<char>) -> Seq<char> {
    if name == "embed"@ {
        "[E_EMBED_ARG_NOT_STR_LITERAL] `embed` takes exactly one string-literal argument: embed(\"relative/path\") (D412)"@
    } else if name == "embed_str"@ {
        "[E_EMBED_ARG_NOT_STR_LITERAL] `embed_str` takes exactly one string-literal argument: embed_str(\"relative/path\") (D412-amendment, Plan 210 Ф.7.2)"@
    } else {
        "[E_EMBED_ARG_NOT_STR_LITERAL] `embed_dir` takes one string-literal path argument, plus optional named args `glob`/`hidden`: embed_dir(\"relative/dir\", glob: \"*.png\", hidden: true) (D412-amendment, Plan 210 Ф.7)"@
    }
}

/// The diagnostic for a path argument that is not a string literal.
pub open spec fn literal_message(name: Seq<char>) -> Seq<char> {
    if name == "embed"@ {
        "[E_EMBED_ARG_NOT_STR_LITERAL] the argument of `embed` must be a string LITERAL — the path is resolved at compile time (D412)"@
    } else if name == "embed_str"@ {
        "[E_EMBED_ARG_NOT_STR_LITERAL] the argument of `embed_str` must be a string LITERAL — the path is resolved at compile time (D412-amendment, Plan 210 Ф.7.2)"@
    } else {
        "[E_EMBED_ARG_NOT_STR_LITERAL] the argument of `embed_dir` must be a string LITERAL — the path is resolved at compile time (D412-amendment, Plan 210)"@
    }
}

/// The diagnostic for a path argument given by name.
pub open spec fn plain_message(name: Seq<char>) -> Seq<char> {
    if name == "embed"@ {
        "[E_EMBED_ARG_NOT_STR_LITERAL] the argument of `embed` must be a plain string literal (no spread/named args) (D412)"@
    } else if name == "embed_str"@ {
        "[E_EMBED_ARG_NOT_STR_LITERAL] the argument of `embed_str` must be a plain string literal (no spread/named args) (D412-amendment, Plan 210 Ф.7.2)"@
    } else {
        "[E_EMBED_ARG_NOT_STR_LITERAL] the first argument of `embed_dir` must be a plain positional string literal (no spread/named for the path) (D412-amendment, Plan 210)"@
    }
}

pub open spec fn glob_twice_message() -> Seq<char> {
    "[E_EMBED_DIR_BAD_ARG] `embed_dir`: named argument `glob` given more than once (D412-amendment, Plan 210 Ф.7.1)"@
}

pub open spec fn glob_literal_message() -> Seq<char> {
    "[E_EMBED_ARG_NOT_STR_LITERAL] `embed_dir`'s `glob:` argument must be a string LITERAL (matched at compile time) (D412-amendment, Plan 210 Ф.7.1)"@
}

pub open spec fn hidden_twice_message() -> Seq<char> {
    "[E_EMBED_DIR_BAD_ARG] `embed_dir`: named argument `hidden` given more than once (D412-amendment, Plan 210 Ф.7.3)"@
}

pub open spec fn hidden_literal_message() -> Seq<char> {
    "[E_EMBED_DIR_BAD_ARG] `embed_dir`'s `hidden:` argument must be a bool LITERAL (`true`/`false`) (D412-amendment, Plan 210 Ф.7.3)"@
}

pub open spec fn unknown_arg_message(arg: Seq<char>) -> Seq<char> {
    "[E_EMBED_DIR_BAD_ARG] `embed_dir`: unknown named argument `"@ + arg + "` — expected `glob` or `hidden` (D412-amendment, Plan 210 Ф.7)"@
}

pub open spec fn positional_message() -> Seq<char> {
    "[E_EMBED_DIR_BAD_ARG] `embed_dir` takes exactly one POSITIONAL argument (the path) — extra arguments must be named (`glob:`/`hidden:`) (D412-amendment, Plan 210 Ф.7)"@
}

/// The named arguments of an `embed_dir` call among `args[1..k]`, in
/// order: the glob, the hidden flag, and whether each was given; or the
/// diagnostic of the first bad one (`call` is the span of the call).
pub open spec fn dir_options(args: Seq<Expr>, k: int, call: Span)
    -> Result<(Option<Seq<char>>, bool, bool, bool), (Seq<char>, Span)>
    decreases k,
{
    if k <= 1 || k > args.len() {
        Ok((None, false, false, false))
    } else {
        match dir_options(args, k - 1, call) {
            Err(d) => Err(d),
            Ok((glob, hidden, glob_seen, hidden_seen)) => match args[k - 1].kind {
                ExprKind::NamedArg { name, value } => if name@ == "glob"@ {
                    if glob_seen {
                        Err((glob_twice_message(), call))
                    } else {
                        match value.kind {
                            ExprKind::StrLit(s) => Ok((Some(s@), hidden, true, hidden_seen)),
                            _ => Err((glob_literal_message(), value.span)),
                        }
                    }
                } else if name@ == "hidden"@ {
                    if hidden_seen {
                        Err((hidden_twice_message(), call))
                    } else {
                        match value.kind {
                            ExprKind::BoolLit(b) => Ok((glob, b, glob_seen, true)),
                            _ => Err((hidden_literal_message(), value.span)),
                        }
                    }
                } else {
                    Err((unknown_arg_message(name@), call))
                },
                _ => Err((positional_message(), call)),
            },
        }
    }
}

/// The plain name a call invokes (empty when it is not a plain name).
pub open spec fn call_name(e: Expr) -> Seq<char> {
    match e.kind {
        ExprKind::Call { func, .. } => match func.kind {
            ExprKind::Ident(n) => n@,
            _ => Seq::empty(),
        },
        _ => Seq::empty(),
    }
}

/// What an intrinsic call asks for, or its diagnostic: the path argument
/// is checked first, then (for `embed_dir`) the named arguments.
pub open spec fn request_spec(e: Expr) -> Result<(KindView, Seq<char>), (Seq<char>, Span)> {
    let name = call_name(e);
    match e.kind {
        ExprKind::Call { args, .. } => {
            if (name != "embed_dir"@ && args.len() != 1) || args.len() == 0 {
                Err((arity_message(name), e.span))
            } else {
                match args[0].kind {
                    ExprKind::StrLit(rel) => if rel@.contains('\\') {
                        Err((backslash_message(rel@, name), e.span))
                    } else if name == "embed"@ {
                        Ok((KindView::File, rel@))
                    } else if name == "embed_str"@ {
                        Ok((KindView::Text, rel@))
                    } else {
                        match dir_options(args@, args.len() as int, e.span) {
                            Ok((glob, hidden, _, _)) => Ok((KindView::Dir { glob, hidden }, rel@)),
                            Err(d) => Err(d),
                        }
                    },
                    ExprKind::NamedArg { .. } => Err((plain_message(name), e.span)),
                    _ => Err((literal_message(name), args[0].span)),
                }
            }
        },
        _ => Err((arity_message(name), e.span)),
    }
}

/// `r` is the request `request_spec` gives for `e`.
pub open spec fn request_is(r: EmbedRequest, e: Expr, kind: KindView, rel: Seq<char>) -> bool {
    &&& kind_view(r.kind) == kind
    &&& r.rel@ == rel
    &&& r.file_id == e.span.file_id
    &&& r.span == e.span
}

fn message(s: &str) -> (d: String)
    ensures
        d@ == s@,
{
    copy_str(s)
}

fn arity_text(name: &str) -> (m: String)
    ensures
        m@ == arity_message(name@),
{
    proof {
        reveal_strlit("embed");
        reveal_strlit("embed_str");
    }
    if str_eq(name, "embed") {
        message("[E_EMBED_ARG_NOT_STR_LITERAL] `embed` takes exactly one string-literal argument: embed(\"relative/path\") (D412)")
    } else if str_eq(name, "embed_str") {
        message("[E_EMBED_ARG_NOT_STR_LITERAL] `embed_str` takes exactly one string-literal argument: embed_str(\"relative/path\") (D412-amendment, Plan 210 Ф.7.2)")
    } else {
        message("[E_EMBED_ARG_NOT_STR_LITERAL] `embed_dir` takes one string-literal path argument, plus optional named args `glob`/`hidden`: embed_dir(\"relative/dir\", glob: \"*.png\", hidden: true) (D412-amendment, Plan 210 Ф.7)")
    }
}

fn literal_text(name: &str) -> (m: String)
    ensures
        m@ == literal_message(name@),
{
    if str_eq(name, "embed") {
        message("[E_EMBED_ARG_NOT_STR_LITERAL] the argument of `embed` must be a string LITERAL — the path is resolved at compile time (D412)")
    } else if str_eq(name, "embed_str") {
        message("[E_EMBED_ARG_NOT_STR_LITERAL] the argument of `embed_str` must be a string LITERAL — the path is resolved at compile time (D412-amendment, Plan 210 Ф.7.2)")
    } else {
        message("[E_EMBED_ARG_NOT_STR_LITERAL] the argument of `embed_dir` must be a string LITERAL — the path is resolved at compile time (D412-amendment, Plan 210)")
    }
}

fn plain_text(name: &str) -> (m: String)
    ensures
        m@ == plain_message(name@),
{
    if str_eq(name, "embed") {
        message("[E_EMBED_ARG_NOT_STR_LITERAL] the argument of `embed` must be a plain string literal (no spread/named args) (D412)")
    } else if str_eq(name, "embed_str") {
        message("[E_EMBED_ARG_NOT_STR_LITERAL] the argument of `embed_str` must be a plain string literal (no spread/named args) (D412-amendment, Plan 210 Ф.7.2)")
    } else {
        message("[E_EMBED_ARG_NOT_STR_LITERAL] the first argument of `embed_dir` must be a plain positional string literal (no spread/named for the path) (D412-amendment, Plan 210)")
    }
}

proof fn lemma_dir_options_err(args: Seq<Expr>, j: int, k: int, call: Span)
    requires
        1 <= j <= k <= args.len(),
        dir_options(args, j, call) is Err,
    ensures
        dir_options(args, k, call) == dir_options(args, j, call),
    decreases k - j,
{
    if k > j {
        lemma_dir_options_err(args, j, k - 1, call);
    }
}

/// The named arguments of an `embed_dir` call (see `dir_options`).
fn dir_options_of(args: &Vec<Expr>, call: Span) -> (r: Result<(Option<String>, bool), EmbedDiag>)
    requires
        args@.len() >= 1,
    ensures
        match dir_options(args@, args@.len() as int, call) {
            Ok((glob, hidden, _, _)) => (r matches Ok((g, h)) && h == hidden
                && match g { Some(x) => glob == Some(x@), None => glob is None }),
            Err((m, sp)) => (r matches Err(d) && d.message@ == m && d.span == sp),
        },
{
    let mut glob: Option<String> = None;
    let mut hidden = false;
    let mut glob_seen = false;
    let mut hidden_seen = false;
    let mut k: usize = 1;
    while k < args.len()
        invariant
            1 <= k <= args@.len(),
            dir_options(args@, k as int, call) == Ok::<(Option<Seq<char>>, bool, bool, bool), (Seq<char>, Span)>((
                match glob { Some(x) => Some(x@), None => None },
                hidden, glob_seen, hidden_seen)),
        decreases args@.len() - k,
    {
        proof {
            if dir_options(args@, k as int + 1, call) is Err {
                lemma_dir_options_err(args@, k as int + 1, args@.len() as int, call);
            }
        }
        match &args[k].kind {
            ExprKind::NamedArg { name, value } => {
                if str_eq(name.as_str(), "glob") {
                    if glob_seen {
                        return Err(EmbedDiag { message: message("[E_EMBED_DIR_BAD_ARG] `embed_dir`: named argument `glob` given more than once (D412-amendment, Plan 210 Ф.7.1)"), span: call });
                    }
                    match &value.kind {
                        ExprKind::StrLit(s) => {
                            glob = Some(copy_str(s.as_str()));
                            glob_seen = true;
                        },
                        _ => {
                            return Err(EmbedDiag { message: message("[E_EMBED_ARG_NOT_STR_LITERAL] `embed_dir`'s `glob:` argument must be a string LITERAL (matched at compile time) (D412-amendment, Plan 210 Ф.7.1)"), span: value.span });
                        },
                    }
                } else if str_eq(name.as_str(), "hidden") {
                    if hidden_seen {
                        return Err(EmbedDiag { message: message("[E_EMBED_DIR_BAD_ARG] `embed_dir`: named argument `hidden` given more than once (D412-amendment, Plan 210 Ф.7.3)"), span: call });
                    }
                    match &value.kind {
                        ExprKind::BoolLit(b) => {
                            hidden = *b;
                            hidden_seen = true;
                        },
                        _ => {
                            return Err(EmbedDiag { message: message("[E_EMBED_DIR_BAD_ARG] `embed_dir`'s `hidden:` argument must be a bool LITERAL (`true`/`false`) (D412-amendment, Plan 210 Ф.7.3)"), span: value.span });
                        },
                    }
                } else {
                    let mut m = String::new();
                    push_str(&mut m, "[E_EMBED_DIR_BAD_ARG] `embed_dir`: unknown named argument `");
                    push_str(&mut m, name.as_str());
                    push_str(&mut m, "` — expected `glob` or `hidden` (D412-amendment, Plan 210 Ф.7)");
                    proof { assert(m@ =~= unknown_arg_message(name@)); }
                    return Err(EmbedDiag { message: m, span: call });
                }
            },
            _ => {
                return Err(EmbedDiag { message: message("[E_EMBED_DIR_BAD_ARG] `embed_dir` takes exactly one POSITIONAL argument (the path) — extra arguments must be named (`glob:`/`hidden:`) (D412-amendment, Plan 210 Ф.7)"), span: call });
            },
        }
        k = k + 1;
    }
    Ok((glob, hidden))
}

/// The request of one intrinsic call, or its diagnostic.
pub fn request_of_call(e: &Expr) -> (r: Result<EmbedRequest, EmbedDiag>)
    ensures
        match request_spec(*e) {
            Ok((kind, rel)) => (r matches Ok(q) && request_is(q, *e, kind, rel)),
            Err((m, sp)) => (r matches Err(d) && d.message@ == m && d.span == sp),
        },
{
    match &e.kind {
        ExprKind::Call { func, args } => {
            proof { reveal_strlit(""); }
            let name: &str = match &func.kind {
                ExprKind::Ident(n) => n.as_str(),
                _ => "",
            };
            assert(name@ == call_name(*e));
            let is_dir = str_eq(name, "embed_dir");
            if (!is_dir && args.len() != 1) || args.len() == 0 {
                return Err(EmbedDiag { message: arity_text(name), span: e.span });
            }
            match &args[0].kind {
                ExprKind::StrLit(rel) => {
                    match check_path_backslash(rel.as_str(), name) {
                        Some(m) => {
                            return Err(EmbedDiag { message: m, span: e.span });
                        },
                        None => {},
                    }
                    let kind = if str_eq(name, "embed") {
                        EmbedKind::File
                    } else if str_eq(name, "embed_str") {
                        EmbedKind::Text
                    } else {
                        match dir_options_of(args, e.span) {
                            Ok((glob, hidden)) => EmbedKind::Dir { glob, hidden },
                            Err(d) => {
                                return Err(d);
                            },
                        }
                    };
                    Ok(EmbedRequest { kind, rel: copy_str(rel.as_str()), file_id: e.span.file_id, span: e.span })
                },
                ExprKind::NamedArg { .. } => Err(EmbedDiag { message: plain_text(name), span: e.span }),
                _ => Err(EmbedDiag { message: literal_text(name), span: args[0].span }),
            }
        },
        _ => {
            proof {
                reveal_strlit("");
                assert(""@ =~= call_name(*e));
            }
            Err(EmbedDiag { message: arity_text(""), span: e.span })
        },
    }
}

/// The intrinsic calls in `e`, in walk order; the arguments of a call are
/// not searched.
pub open spec fn calls_expr(e: Expr) -> Seq<Expr>
    decreases e, 0int,
{
    if intrinsic_of(e) is Some {
        seq![e]
    } else {
        match e.kind {
            ExprKind::Member { obj, .. } => calls_expr(*obj),
            ExprKind::Call { func, args } => calls_expr(*func) + calls_exprs(args, args.len() as int),
            ExprKind::Binary { left, right, .. } => calls_expr(*left) + calls_expr(*right),
            ExprKind::Unary { operand, .. } => calls_expr(*operand),
            ExprKind::Index { obj, index } => calls_expr(*obj) + calls_expr(*index),
            ExprKind::If { cond, then, else_ } | ExprKind::IfLet { scrutinee: cond, then, else_, .. } => calls_expr(*cond) + calls_block(then) + match else_ {
                Some(ElseBranch::Block(b)) => calls_block(b),
                Some(ElseBranch::If(x)) => calls_expr(*x),
                None => Seq::empty(),
            },
            ExprKind::While { cond, body } | ExprKind::WhileLet { scrutinee: cond, body, .. } | ExprKind::For { iter: cond, body, .. } | ExprKind::ParallelFor { iter: cond, body, .. } => calls_expr(*cond) + calls_block(body),
            ExprKind::Match { scrutinee, arms } => calls_expr(*scrutinee) + calls_arms(arms, arms.len() as int),
            ExprKind::Block(b) => calls_block(b),
            ExprKind::Lambda { body, .. } => calls_expr(*body),
            ExprKind::Spawn(x) => calls_expr(*x),
            ExprKind::NamedArg { value, .. } | ExprKind::Try(value) => calls_expr(*value),
            ExprKind::TupleLit(items) => calls_exprs(items, items.len() as int),
            ExprKind::ArrayLit(items) => calls_exprs(items, items.len() as int),
            ExprKind::RecordLit { fields, .. } => calls_fields(fields, fields.len() as int),
            _ => Seq::empty(),
        }
    }
}

pub open spec fn calls_exprs(v: Vec<Expr>, k: int) -> Seq<Expr>
    decreases v, k,
{
    if k <= 0 || k > v.len() { Seq::empty() } else { calls_exprs(v, k - 1) + calls_expr(v[k - 1]) }
}

pub open spec fn calls_fields(v: Vec<RecordLitField>, k: int) -> Seq<Expr>
    decreases v, k,
{
    if k <= 0 || k > v.len() {
        Seq::empty()
    } else {
        calls_fields(v, k - 1) + match v[k - 1].value {
            Some(x) => calls_expr(x),
            None => Seq::empty(),
        }
    }
}

pub open spec fn calls_arms(v: Vec<MatchArm>, k: int) -> Seq<Expr>
    decreases v, k,
{
    if k <= 0 || k > v.len() {
        Seq::empty()
    } else {
        calls_arms(v, k - 1) + match v[k - 1].body {
            MatchArmBody::Expr(x) => calls_expr(x),
            MatchArmBody::Block(b) => calls_block(b),
        }
    }
}

pub open spec fn calls_block(b: Block) -> Seq<Expr>
    decreases b, 1int,
{
    calls_stmts(b.stmts, b.stmts.len() as int) + match b.trailing {
        Some(x) => calls_expr(*x),
        None => Seq::empty(),
    }
}

pub open spec fn calls_stmts(v: Vec<Stmt>, k: int) -> Seq<Expr>
    decreases v, k,
{
    if k <= 0 || k > v.len() { Seq::empty() } else { calls_stmts(v, k - 1) + calls_stmt(v[k - 1]) }
}

pub open spec fn calls_stmt(s: Stmt) -> Seq<Expr>
    decreases s, 0int,
{
    match s {
        Stmt::Let(d) => calls_expr(d.value),
        Stmt::Assign { target, value, .. } => calls_expr(target) + calls_expr(value),
        Stmt::Expr(x) => calls_expr(x),
        Stmt::Return { value, .. } => match value {
            Some(x) => calls_expr(x),
            None => Seq::empty(),
        },
        _ => Seq::empty(),
    }
}

pub open spec fn calls_item(it: Item) -> Seq<Expr> {
    match it {
        Item::Fn(f) => match f.body {
            FnBody::Block(b) => calls_block(b),
            FnBody::Expr(x) => calls_expr(x),
            FnBody::External => Seq::empty(),
        },
        Item::Test(t) => calls_block(t.body),
        Item::Type(_) => Seq::empty(),
    }
}

pub open spec fn calls_items(v: Seq<Item>, k: int) -> Seq<Expr>
    decreases k,
{
    if k <= 0 || k > v.len() { Seq::empty() } else { calls_items(v, k - 1) + calls_item(v[k - 1]) }
}

pub open spec fn calls_peers(v: Seq<PeerFile>, k: int) -> Seq<Expr>
    decreases k,
{
    if k <= 0 || k > v.len() {
        Seq::empty()
    } else {
        calls_peers(v, k - 1) + calls_items(v[k - 1].items_here@, v[k - 1].items_here@.len() as int)
    }
}

/// The intrinsic calls of a module in walk order: its items, then the items
/// of each peer file.
pub open spec fn module_calls(m: Module) -> Seq<Expr> {
    calls_items(m.items@, m.items@.len() as int) + calls_peers(m.peer_files@, m.peer_files@.len() as int)
}

pub open spec fn derefs<'a>(v: Seq<&'a Expr>) -> Seq<Expr> {
    v.map_values(|r: &'a Expr| *r)
}

proof fn lemma_derefs_push<'a>(v: Seq<&'a Expr>, e: &'a Expr)
    ensures
        derefs(v.push(e)) == derefs(v).push(*e),
{
    assert(derefs(v.push(e)) =~= derefs(v).push(*e));
}

fn find_calls_expr<'a>(e: &'a Expr, out: &mut Vec<&'a Expr>)
    ensures
        derefs(final(out)@) == derefs(old(out)@) + calls_expr(*e),
    decreases e, 0int,
{
    let ghost o0 = derefs(out@);
    let is_call = match &e.kind {
        ExprKind::Call { func, .. } => match &func.kind {
            ExprKind::Ident(n) => str_eq(n.as_str(), "embed") || str_eq(n.as_str(), "embed_str") || str_eq(n.as_str(), "embed_dir"),
            _ => false,
        },
        _ => false,
    };
    if is_call {
        proof { lemma_derefs_push(out@, e); }
        out.push(e);
        return;
    }
    match &e.kind {
        ExprKind::Member { obj, .. } => find_calls_expr(obj, out),
        ExprKind::Call { func, args } => {
            find_calls_expr(func, out);
            find_calls_exprs(args, out);
        },
        ExprKind::Binary { left, right, .. } => {
            find_calls_expr(left, out);
            find_calls_expr(right, out);
        },
        ExprKind::Unary { operand, .. } => find_calls_expr(operand, out),
        ExprKind::Index { obj, index } => {
            find_calls_expr(obj, out);
            find_calls_expr(index, out);
        },
        ExprKind::If { cond, then, else_ } | ExprKind::IfLet { scrutinee: cond, then, else_, .. } => {
            find_calls_expr(cond, out);
            find_calls_block(then, out);
            match else_ {
                Some(ElseBranch::Block(b)) => find_calls_block(b, out),
                Some(ElseBranch::If(x)) => find_calls_expr(x, out),
                None => {},
            }
        },
        ExprKind::While { cond, body } | ExprKind::WhileLet { scrutinee: cond, body, .. } | ExprKind::For { iter: cond, body, .. } | ExprKind::ParallelFor { iter: cond, body, .. } => {
            find_calls_expr(cond, out);
            find_calls_block(body, out);
        },
        ExprKind::Match { scrutinee, arms } => {
            find_calls_expr(scrutinee, out);
            find_calls_arms(arms, out);
        },
        ExprKind::Block(b) => find_calls_block(b, out),
        ExprKind::Lambda { body, .. } => find_calls_expr(body, out),
        ExprKind::Spawn(x) => find_calls_expr(x, out),
        ExprKind::NamedArg { value, .. } | ExprKind::Try(value) => find_calls_expr(value, out),
        ExprKind::TupleLit(items) => find_calls_exprs(items, out),
        ExprKind::ArrayLit(items) => find_calls_exprs(items, out),
        ExprKind::RecordLit { fields, .. } => find_calls_fields(fields, out),
        _ => {},
    }
}

fn find_calls_exprs<'a>(v: &'a Vec<Expr>, out: &mut Vec<&'a Expr>)
    ensures
        derefs(final(out)@) == derefs(old(out)@) + calls_exprs(*v, v.len() as int),
    decreases v, v.len(),
{
    let ghost o0 = derefs(out@);
    let mut i: usize = 0;
    while i < v.len()
        invariant
            i <= v.len(),
            derefs(out@) == o0 + calls_exprs(*v, i as int),
        decreases v.len() - i,
    {
        proof { assert(decreases_to!(*v => v[i as int])); }
        find_calls_expr(&v[i], out);
        i = i + 1;
    }
}

fn find_calls_fields<'a>(v: &'a Vec<RecordLitField>, out: &mut Vec<&'a Expr>)
    ensures
        derefs(final(out)@) == derefs(old(out)@) + calls_fields(*v, v.len() as int),
    decreases v, v.len(),
{
    let ghost o0 = derefs(out@);
    let mut i: usize = 0;
    while i < v.len()
        invariant
            i <= v.len(),
            derefs(out@) == o0 + calls_fields(*v, i as int),
        decreases v.len() - i,
    {
        proof { assert(decreases_to!(*v => v[i as int])); }
        match &v[i].value {
            Some(x) => find_calls_expr(x, out),
            None => {},
        }
        i = i + 1;
    }
}

fn find_calls_arms<'a>(v: &'a Vec<MatchArm>, out: &mut Vec<&'a Expr>)
    ensures
        derefs(final(out)@) == derefs(old(out)@) + calls_arms(*v, v.len() as int),
    decreases v, v.len(),
{
    let ghost o0 = derefs(out@);
    let mut i: usize = 0;
    while i < v.len()
        invariant
            i <= v.len(),
            derefs(out@) == o0 + calls_arms(*v, i as int),
        decreases v.len() - i,
    {
        proof { assert(decreases_to!(*v => v[i as int])); }
        match &v[i].body {
            MatchArmBody::Expr(x) => find_calls_expr(x, out),
            MatchArmBody::Block(b) => find_calls_block(b, out),
        }
        i = i + 1;
    }
}

fn find_calls_block<'a>(b: &'a Block, out: &mut Vec<&'a Expr>)
    ensures
        derefs(final(out)@) == derefs(old(out)@) + calls_block(*b),
    decreases b, 1int,
{
    let ghost o0 = derefs(out@);
    find_calls_stmts(&b.stmts, out);
    match &b.trailing {
        Some(x) => find_calls_expr(x, out),
        None => {},
    }
}

fn find_calls_stmts<'a>(v: &'a Vec<Stmt>, out: &mut Vec<&'a Expr>)
    ensures
        derefs(final(out)@) == derefs(old(out)@) + calls_stmts(*v, v.len() as int),
    decreases v, v.len(),
{
    let ghost o0 = derefs(out@);
    let mut i: usize = 0;
    while i < v.len()
        invariant
            i <= v.len(),
            derefs(out@) == o0 + calls_stmts(*v, i as int),
        decreases v.len() - i,
    {
        proof { assert(decreases_to!(*v => v[i as int])); }
        find_calls_stmt(&v[i], out);
        i = i + 1;
    }
}

fn find_calls_stmt<'a>(s: &'a Stmt, out: &mut Vec<&'a Expr>)
    ensures
        derefs(final(out)@) == derefs(old(out)@) + calls_stmt(*s),
    decreases s, 0int,
{
    match s {
        Stmt::Let(d) => find_calls_expr(&d.value, out),
        Stmt::Assign { target, value, .. } => {
            find_calls_expr(target, out);
            find_calls_expr(value, out);
        },
        Stmt::Expr(x) => find_calls_expr(x, out),
        Stmt::Return { value, .. } => match value {
            Some(x) => find_calls_expr(x, out),
            None => {},
        },
        _ => {},
    }
}

fn find_calls_items<'a>(v: &'a Vec<Item>, out: &mut Vec<&'a Expr>)
    ensures
        derefs(final(out)@) == derefs(old(out)@) + calls_items(v@, v@.len() as int),
{
    let ghost o0 = derefs(out@);
    let mut i: usize = 0;
    while i < v.len()
        invariant
            i <= v@.len(),
            derefs(out@) == o0 + calls_items(v@, i as int),
        decreases v@.len() - i,
    {
        match &v[i] {
            Item::Fn(f) => match &f.body {
                FnBody::Block(b) => find_calls_block(b, out),
                FnBody::Expr(x) => find_calls_expr(x, out),
                FnBody::External => {},
            },
            Item::Test(t) => find_calls_block(&t.body, out),
            Item::Type(_) => {},
        }
        i = i + 1;
    }
}

/// The intrinsic calls of `m` in walk order.
fn find_module_calls<'a>(m: &'a Module) -> (r: Vec<&'a Expr>)
    ensures
        derefs(r@) == module_calls(*m),
{
    let mut out: Vec<&'a Expr> = Vec::new();
    assert(derefs(out@) =~= Seq::<Expr>::empty());
    find_calls_items(&m.items, &mut out);
    let ghost o1 = derefs(out@);
    let mut j: usize = 0;
    while j < m.peer_files.len()
        invariant
            j <= m.peer_files@.len(),
            derefs(out@) == o1 + calls_peers(m.peer_files@, j as int),
        decreases m.peer_files@.len() - j,
    {
        find_calls_items(&m.peer_files[j].items_here, &mut out);
        j = j + 1;
    }
    out
}

/// The argument diagnostics of the calls `cs`, in order.
pub open spec fn request_errors(cs: Seq<Expr>) -> Seq<(Seq<char>, Span)>
    decreases cs.len(),
{
    if cs.len() == 0 {
        Seq::empty()
    } else {
        let p = request_errors(cs.drop_last());
        match request_spec(cs.last()) {
            Err(d) => p.push(d),
            Ok(_) => p,
        }
    }
}

/// `ds` with repeats dropped: each (message, span) pair once, where it
/// first occurs.
pub open spec fn dedup_diags(ds: Seq<(Seq<char>, Span)>) -> Seq<(Seq<char>, Span)>
    decreases ds.len(),
{
    if ds.len() == 0 {
        Seq::empty()
    } else {
        let p = dedup_diags(ds.drop_last());
        if p.contains(ds.last()) { p } else { p.push(ds.last()) }
    }
}

pub open spec fn diag_view(d: EmbedDiag) -> (Seq<char>, Span) {
    (d.message@, d.span)
}

pub open spec fn diags_view(v: Seq<EmbedDiag>) -> Seq<(Seq<char>, Span)> {
    v.map_values(|d: EmbedDiag| diag_view(d))
}

/// `reqs` are the requests of the calls `cs`, one for one.
pub open spec fn requests_of(reqs: Seq<EmbedRequest>, cs: Seq<Expr>) -> bool {
    &&& reqs.len() == cs.len()
    &&& forall|i: int| 0 <= i < cs.len() ==> (request_spec(#[trigger] cs[i]) matches Ok((k, rel)) && request_is(reqs[i], cs[i], k, rel))
}

/// The requests of a module: every intrinsic call of `module_calls`, in
/// order, when all their arguments are good; otherwise the argument
/// diagnostics, each (message, span) once.
pub open spec fn requests_ok(m: Module, r: Result<Vec<EmbedRequest>, Vec<EmbedDiag>>) -> bool {
    match r {
        Ok(reqs) => request_errors(module_calls(m)).len() == 0 && requests_of(reqs@, module_calls(m)),
        Err(ds) => request_errors(module_calls(m)).len() > 0 && diags_view(ds@) == dedup_diags(request_errors(module_calls(m))),
    }
}

fn same_span(a: Span, b: Span) -> (r: bool)
    ensures
        r == (a == b),
{
    a.start == b.start && a.end == b.end && a.file_id == b.file_id
}

/// Adds `d` unless a diagnostic with its message and span is there.
fn push_diag(ds: &mut Vec<EmbedDiag>, d: EmbedDiag)
    ensures
        diags_view(final(ds)@) == (if diags_view(old(ds)@).contains(diag_view(d)) {
            diags_view(old(ds)@)
        } else {
            diags_view(old(ds)@).push(diag_view(d))
        }),
{
    let mut i: usize = 0;
    while i < ds.len()
        invariant
            i <= ds@.len(),
            forall|k: int| 0 <= k < i ==> diag_view(#[trigger] ds@[k]) != diag_view(d),
        decreases ds@.len() - i,
    {
        if str_eq(ds[i].message.as_str(), d.message.as_str()) && same_span(ds[i].span, d.span) {
            proof {
                assert(diags_view(ds@)[i as int] == diag_view(d));
            }
            return;
        }
        i = i + 1;
    }
    proof {
        if diags_view(ds@).contains(diag_view(d)) {
            let k = choose|k: int| 0 <= k < diags_view(ds@).len() && diags_view(ds@)[k] == diag_view(d);
            assert(diag_view(ds@[k]) == diag_view(d));
        }
    }
    let ghost before = ds@;
    ds.push(d);
    proof {
        assert(diags_view(ds@) =~= diags_view(before).push(diag_view(d)));
    }
}

/// The intrinsic calls of `module` checked (see `requests_ok`).
#[verifier::rlimit(50)]
pub fn embed_requests(module: &Module) -> (r: Result<Vec<EmbedRequest>, Vec<EmbedDiag>>)
    ensures
        requests_ok(*module, r),
{
    let calls = find_module_calls(module);
    let ghost cs = module_calls(*module);
    let mut reqs: Vec<EmbedRequest> = Vec::new();
    let mut diags: Vec<EmbedDiag> = Vec::new();
    let mut i: usize = 0;
    assert(diags_view(diags@) =~= Seq::<(Seq<char>, Span)>::empty());
    while i < calls.len()
        invariant
            i <= calls@.len(),
            derefs(calls@) == cs,
            diags_view(diags@) == dedup_diags(request_errors(cs.take(i as int))),
            request_errors(cs.take(i as int)).len() == 0 ==> requests_of(reqs@, cs.take(i as int)),
        decreases calls@.len() - i,
    {
        let c: &Expr = calls[i];
        assert(*c == cs[i as int]);
        assert(cs.take(i as int + 1).drop_last() =~= cs.take(i as int));
        assert(cs.take(i as int + 1).last() == cs[i as int]);
        let ghost r0 = reqs@;
        let ghost e0 = request_errors(cs.take(i as int));
        match request_of_call(c) {
            Ok(q) => {
                proof {
                    assert(request_spec(cs[i as int]) is Ok);
                    assert(request_errors(cs.take(i as int + 1)) == e0);
                }
                reqs.push(q);
                proof {
                    if request_errors(cs.take(i as int)).len() == 0 {
                        assert forall|k: int| 0 <= k < i + 1 implies (request_spec(#[trigger] cs.take(i as int + 1)[k]) matches Ok((kd, rel))
                            && request_is(reqs@[k], cs.take(i as int + 1)[k], kd, rel)) by {
                            if k < i {
                                assert(cs.take(i as int + 1)[k] == cs.take(i as int)[k]);
                                assert(reqs@[k] == r0[k]);
                            }
                        }
                    }
                }
            },
            Err(d) => {
                proof {
                    let x = diag_view(d);
                    assert(request_spec(cs[i as int]) == Err::<(KindView, Seq<char>), (Seq<char>, Span)>(x));
                    assert(request_errors(cs.take(i as int + 1)) == e0.push(x));
                    assert(e0.push(x).drop_last() =~= e0);
                    assert(e0.push(x).last() == x);
                }
                push_diag(&mut diags, d);
            },
        }
        i = i + 1;
    }
    assert(cs.take(cs.len() as int) =~= cs);
    if diags.len() == 0 {
        proof {
            lemma_dedup_empty(request_errors(cs));
        }
        Ok(reqs)
    } else {
        Err(diags)
    }
}

proof fn lemma_dedup_empty(ds: Seq<(Seq<char>, Span)>)
    ensures
        (dedup_diags(ds).len() == 0) == (ds.len() == 0),
    decreases ds.len(),
{
    if ds.len() > 0 {
        lemma_dedup_empty(ds.drop_last());
        let p = dedup_diags(ds.drop_last());
        if p.contains(ds.last()) {
            assert(p.len() > 0);
        }
    }
}

/// One file met by the host's walk of an embedded directory.
#[derive(Debug)]
pub struct DirEntryFound {
    /// The path relative to the directory, `/`-separated, as the walk gave it.
    pub raw: String,
    /// The same path in Unicode normal form C: the key of the entry.
    pub key: String,
    /// The canonical path of the file.
    pub abs: String,
    /// The file lies inside the project root.
    pub inside_root: bool,
    /// The file's bytes, or why it could not be read.
    pub data: Result<Vec<u8>, String>,
}

/// What the host found for one request.
#[derive(Debug)]
pub enum EmbedAnswer {
    /// `embed`: the file's canonical path and bytes.
    File { path: String, bytes: Vec<u8> },
    /// `embed_str`: the file's canonical path and its text.
    Text { path: String, text: String },
    /// `embed_str`: the file is not UTF-8; `offset` is its first bad byte.
    NotUtf8 { path: String, offset: usize },
    /// The path does not resolve against `base`, the directory of the call.
    NotFound { base: String },
    /// `embed`/`embed_str` named a directory.
    IsDir { path: String },
    /// `embed_dir` named a file.
    NotADir { path: String },
    /// The canonical path lies outside the project root.
    Outside { path: String, root: String },
    /// The file could not be read.
    ReadFailed { path: String, error: String },
    /// `embed_dir`: the walk of the directory (dot entries skipped unless
    /// hidden ones were asked for; symlinks skipped and listed), with the
    /// project root, and the non-ASCII file names met.
    Dir { root: String, entries: Vec<DirEntryFound>, symlinks: Vec<String>, non_ascii: Vec<String> },
}

/// A warning of the pass.
#[derive(Debug)]
pub struct EmbedWarning {
    pub rule: String,
    pub message: String,
    pub span: Span,
}

pub open spec fn file_not_found_message(rel: Seq<char>, base: Seq<char>) -> Seq<char> {
    "[E_EMBED_NOT_FOUND] embedded file not found: `"@ + rel + "` (resolved relative to `"@ + base + "`)"@
}

pub open spec fn dir_not_found_message(rel: Seq<char>, base: Seq<char>) -> Seq<char> {
    "[E_EMBED_DIR_NOT_FOUND] embedded directory not found: `"@ + rel + "` (resolved relative to `"@ + base + "`)"@
}

pub open spec fn is_dir_message(text: bool, path: Seq<char>) -> Seq<char> {
    if text {
        "[E_EMBED_IS_A_DIR] `"@ + path + "` is a directory, not a file — use `embed_dir(...)` instead of `embed_str(...)` (D412-amendment, Plan 210 Ф.7.2)"@
    } else {
        "[E_EMBED_IS_A_DIR] `"@ + path + "` is a directory, not a file — use `embed_dir(...)` instead of `embed(...)` (D412-amendment, Plan 210)"@
    }
}

pub open spec fn not_a_dir_message(path: Seq<char>) -> Seq<char> {
    "[E_EMBED_NOT_A_DIR] `"@ + path + "` is a file, not a directory — use `embed(...)` instead of `embed_dir(...)` (D412-amendment, Plan 210)"@
}

pub open spec fn outside_file_message(path: Seq<char>, root: Seq<char>) -> Seq<char> {
    "[E_EMBED_OUTSIDE_PROJECT] embedded file `"@ + path + "` escapes the project root `"@ + root + "` — paths above the project tree are forbidden (D412)"@
}

pub open spec fn outside_dir_message(path: Seq<char>, root: Seq<char>) -> Seq<char> {
    "[E_EMBED_OUTSIDE_PROJECT] embedded directory `"@ + path + "` escapes the project root `"@ + root + "` — paths above the project tree are forbidden (D412-amendment, Plan 210)"@
}

pub open spec fn outside_entry_message(path: Seq<char>, root: Seq<char>) -> Seq<char> {
    "[E_EMBED_OUTSIDE_PROJECT] embedded file `"@ + path + "` escapes the project root `"@ + root + "` (D412-amendment, Plan 210)"@
}

pub open spec fn read_failed_message(path: Seq<char>, error: Seq<char>) -> Seq<char> {
    "[E_EMBED_NOT_FOUND] cannot read embedded file `"@ + path + "`: "@ + error
}

pub open spec fn entry_read_failed_message(path: Seq<char>, error: Seq<char>) -> Seq<char> {
    "[E_EMBED_DIR_NOT_FOUND] cannot read embedded file `"@ + path + "`: "@ + error
}

pub open spec fn not_utf8_message(path: Seq<char>, offset: nat) -> Seq<char> {
    "[E_EMBED_NOT_UTF8] embedded file `"@ + path + "` is not valid UTF-8 (first invalid byte at offset "@ + decimal(offset)
        + ") — `embed_str` requires text content; use `embed(...)` for raw bytes (D412-amendment, Plan 210 Ф.7.2)"@
}

/// `a + b + c`, built by appending.
fn cat3(a: &str, b: &str, c: &str) -> (r: String)
    ensures
        r@ == a@ + b@ + c@,
{
    let mut r = String::new();
    push_str(&mut r, a);
    push_str(&mut r, b);
    push_str(&mut r, c);
    r
}

/// `a + b + c + d + e`, built by appending.
fn cat5(a: &str, b: &str, c: &str, d: &str, e: &str) -> (r: String)
    ensures
        r@ == a@ + b@ + c@ + d@ + e@,
{
    let mut r = String::new();
    push_str(&mut r, a);
    push_str(&mut r, b);
    push_str(&mut r, c);
    push_str(&mut r, d);
    push_str(&mut r, e);
    r
}

/// The embedded value of a request, by its contents.
pub enum ValueView {
    Bytes(Seq<u8>),
    Text(Seq<char>),
    /// Entries `(path, bytes)` in increasing order of path.
    Dir(Seq<(Seq<char>, Seq<u8>)>),
}

/// What one answer gives for a file request (`text` for `embed_str`): the
/// value and the embedded file, or a diagnostic message.
pub open spec fn file_outcome(text: bool, rel: Seq<char>, a: EmbedAnswer) -> Result<(ValueView, Seq<char>), Seq<char>> {
    match a {
        EmbedAnswer::File { path, bytes } => if text { Err(Seq::empty()) } else { Ok((ValueView::Bytes(bytes@), path@)) },
        EmbedAnswer::Text { path, text: t } => if text { Ok((ValueView::Text(t@), path@)) } else { Err(Seq::empty()) },
        EmbedAnswer::NotUtf8 { path, offset } => if text { Err(not_utf8_message(path@, offset as nat)) } else { Err(Seq::empty()) },
        EmbedAnswer::NotFound { base } => Err(file_not_found_message(rel, base@)),
        EmbedAnswer::IsDir { path } => Err(is_dir_message(text, path@)),
        EmbedAnswer::Outside { path, root } => Err(outside_file_message(path@, root@)),
        EmbedAnswer::ReadFailed { path, error } => Err(read_failed_message(path@, error@)),
        _ => Err(Seq::empty()),
    }
}

/// The answer fits a file request.
pub open spec fn fits_file(text: bool, a: EmbedAnswer) -> bool {
    match a {
        EmbedAnswer::File { .. } => !text,
        EmbedAnswer::Text { .. } | EmbedAnswer::NotUtf8 { .. } => text,
        EmbedAnswer::NotFound { .. } | EmbedAnswer::IsDir { .. } | EmbedAnswer::Outside { .. } | EmbedAnswer::ReadFailed { .. } => true,
        _ => false,
    }
}

/// The value for a file answer, or its diagnostic message.
fn file_answer(text: bool, rel: &str, a: EmbedAnswer) -> (r: Result<(ExprKind, String), String>)
    requires
        fits_file(text, a),
    ensures
        match file_outcome(text, rel@, a) {
            Ok((v, f)) => (r matches Ok((k, g)) && g@ == f && match v {
                ValueView::Bytes(b) => k matches ExprKind::HexBlobLit(x) && x@ == b,
                ValueView::Text(t) => k matches ExprKind::StrLit(x) && x@ == t,
                _ => false,
            }),
            Err(m) => (r matches Err(x) && x@ == m),
        },
{
    match a {
        EmbedAnswer::File { path, bytes } => Ok((ExprKind::HexBlobLit(bytes), path)),
        EmbedAnswer::Text { path, text: t } => Ok((ExprKind::StrLit(t), path)),
        EmbedAnswer::NotUtf8 { path, offset } => {
            let mut m = String::new();
            push_str(&mut m, "[E_EMBED_NOT_UTF8] embedded file `");
            push_str(&mut m, path.as_str());
            push_str(&mut m, "` is not valid UTF-8 (first invalid byte at offset ");
            push_decimal(&mut m, offset as u128);
            push_str(&mut m, ") — `embed_str` requires text content; use `embed(...)` for raw bytes (D412-amendment, Plan 210 Ф.7.2)");
            proof { assert(m@ =~= not_utf8_message(path@, offset as nat)); }
            Err(m)
        },
        EmbedAnswer::NotFound { base } => Err(cat5("[E_EMBED_NOT_FOUND] embedded file not found: `", rel, "` (resolved relative to `", base.as_str(), "`)")),
        EmbedAnswer::IsDir { path } => if text {
            Err(cat3("[E_EMBED_IS_A_DIR] `", path.as_str(), "` is a directory, not a file — use `embed_dir(...)` instead of `embed_str(...)` (D412-amendment, Plan 210 Ф.7.2)"))
        } else {
            Err(cat3("[E_EMBED_IS_A_DIR] `", path.as_str(), "` is a directory, not a file — use `embed_dir(...)` instead of `embed(...)` (D412-amendment, Plan 210)"))
        },
        EmbedAnswer::Outside { path, root } => Err(cat5("[E_EMBED_OUTSIDE_PROJECT] embedded file `", path.as_str(), "` escapes the project root `", root.as_str(), "` — paths above the project tree are forbidden (D412)")),
        EmbedAnswer::ReadFailed { path, error } => {
            let m = cat3("[E_EMBED_NOT_FOUND] cannot read embedded file `", path.as_str(), "`: ");
            let mut m = m;
            push_str(&mut m, error.as_str());
            Err(m)
        },
        _ => {
            proof { assert(false); }
            Err(String::new())
        },
    }
}

/// The raw path of the first of `es[..k]` with the key `key`.
pub open spec fn first_raw(es: Seq<DirEntryFound>, k: int, key: Seq<char>) -> Option<Seq<char>>
    decreases k,
{
    if k <= 0 || k > es.len() {
        None
    } else {
        match first_raw(es, k - 1, key) {
            Some(r) => Some(r),
            None => if es[k - 1].key@ == key { Some(es[k - 1].raw@) } else { None },
        }
    }
}

/// The first entry of `es[..k]` whose key an earlier entry with another
/// raw path already has: `(key, earlier raw path, its raw path)`.
pub open spec fn collision(es: Seq<DirEntryFound>, k: int) -> Option<(Seq<char>, Seq<char>, Seq<char>)>
    decreases k,
{
    if k <= 0 || k > es.len() {
        None
    } else {
        match collision(es, k - 1) {
            Some(c) => Some(c),
            None => match first_raw(es, k - 1, es[k - 1].key@) {
                Some(r) => if r != es[k - 1].raw@ { Some((es[k - 1].key@, r, es[k - 1].raw@)) } else { None },
                None => None,
            },
        }
    }
}

/// The entries of `es[..k]` whose key passes the glob.
pub open spec fn kept(es: Seq<DirEntryFound>, glob: Option<Seq<char>>, k: int) -> Seq<DirEntryFound>
    decreases k,
{
    if k <= 0 || k > es.len() {
        Seq::empty()
    } else {
        let p = kept(es, glob, k - 1);
        if passes_glob(glob, es[k - 1].key@) { p.push(es[k - 1]) } else { p }
    }
}

/// The canonical path of the first entry outside the project root.
pub open spec fn first_outside(ks: Seq<DirEntryFound>) -> Option<Seq<char>>
    decreases ks.len(),
{
    if ks.len() == 0 {
        None
    } else {
        match first_outside(ks.drop_last()) {
            Some(x) => Some(x),
            None => if !ks.last().inside_root { Some(ks.last().abs@) } else { None },
        }
    }
}

/// The first entry that could not be read: its canonical path and why.
pub open spec fn first_unread(ks: Seq<DirEntryFound>) -> Option<(Seq<char>, Seq<char>)>
    decreases ks.len(),
{
    if ks.len() == 0 {
        None
    } else {
        match first_unread(ks.drop_last()) {
            Some(x) => Some(x),
            None => match ks.last().data {
                Err(e) => Some((ks.last().abs@, e@)),
                Ok(_) => None,
            },
        }
    }
}

/// The bytes of all entries that were read.
pub open spec fn total_bytes(ks: Seq<DirEntryFound>) -> nat
    decreases ks.len(),
{
    if ks.len() == 0 {
        0
    } else {
        total_bytes(ks.drop_last()) + match ks.last().data {
            Ok(b) => b@.len(),
            Err(_) => 0nat,
        }
    }
}

/// The bytes of the first entry with the key `key` (none if unread).
pub open spec fn data_of(ks: Seq<DirEntryFound>, key: Seq<char>) -> Seq<u8>
    decreases ks.len(),
{
    if ks.len() == 0 {
        Seq::empty()
    } else if exists|i: int| 0 <= i < ks.len() - 1 && #[trigger] ks[i].key@ == key {
        data_of(ks.drop_last(), key)
    } else if ks.last().key@ == key {
        match ks.last().data {
            Ok(b) => b@,
            Err(_) => Seq::empty(),
        }
    } else {
        Seq::empty()
    }
}

pub open spec fn abs_paths(ks: Seq<DirEntryFound>) -> Seq<Seq<char>> {
    ks.map_values(|e: DirEntryFound| e.abs@)
}

pub open spec fn keys_of(ks: Seq<DirEntryFound>) -> Seq<Seq<char>> {
    ks.map_values(|e: DirEntryFound| e.key@)
}

pub open spec fn pair_keys(pairs: Seq<(Seq<char>, Seq<u8>)>) -> Seq<Seq<char>> {
    pairs.map_values(|p: (Seq<char>, Seq<u8>)| p.0)
}

/// `pairs` are the kept entries `ks`: their keys once each in increasing
/// order, each with its bytes.
pub open spec fn dir_pairs_ok(pairs: Seq<(Seq<char>, Seq<u8>)>, ks: Seq<DirEntryFound>) -> bool {
    &&& increasing(pair_keys(pairs), name_lt())
    &&& forall|k: Seq<char>| #[trigger] pair_keys(pairs).contains(k) <==> keys_of(ks).contains(k)
    &&& forall|i: int| 0 <= i < pairs.len() ==> (#[trigger] pairs[i]).1 == data_of(ks, pairs[i].0)
}

pub open spec fn collision_message(rel: Seq<char>, key: Seq<char>, a: Seq<char>, b: Seq<char>) -> Seq<char> {
    "[E_EMBED_DIR_NFC_COLLISION] embed_dir(\""@ + rel + "\") has two different entries that normalize to the same NFC path `"@
        + key + "`: `"@ + a + "` and `"@ + b + "` — rename one of them (D412-amendment, Plan 210)"@
}

pub open spec fn symlink_message(rel: Seq<char>, path: Seq<char>) -> Seq<char> {
    "[W_EMBED_DIR_SYMLINK_SKIPPED] symlink skipped inside embed_dir(\""@ + rel + "\"): `"@ + path + "`"@
}

pub open spec fn non_ascii_message(rel: Seq<char>, name: Seq<char>) -> Seq<char> {
    "[W_EMBED_DIR_NON_ASCII_PATH] non-ASCII file name in embed_dir(\""@ + rel + "\"): `"@ + name
        + "` — key is normalized to NFC for cross-OS reproducibility (macOS commonly gives NFD, Windows/Linux NFC); a form-collision with another entry is a hard error (E_EMBED_DIR_NFC_COLLISION), not a silent overwrite (D412-amendment, Plan 210 Ф.6а)"@
}

pub open spec fn large_message(rel: Seq<char>, count: nat, bytes: nat) -> Seq<char> {
    "[W_EMBED_DIR_LARGE] embed_dir(\""@ + rel + "\") embeds "@ + decimal(count) + " file(s), "@ + decimal(bytes)
        + " bytes total — hex-blob text rendering expands ~5.3x in the generated .c; consider trimming the embedded tree"@
}

pub open spec fn empty_message(rel: Seq<char>, glob: Option<Seq<char>>) -> Seq<char> {
    "[W_EMBED_DIR_EMPTY] embed_dir(\""@ + rel + "\") resolved to zero files after dot/symlink skip"@
        + (if glob is Some { " and glob filter"@ } else { Seq::empty() }) + " — check the path"@
        + match glob {
            Some(g) => " (glob: \""@ + g + "\")"@,
            None => Seq::empty(),
        }
}

/// The warnings of a resolved directory: each skipped symlink, each
/// non-ASCII name, then too large, then empty.
pub open spec fn dir_warnings(rel: Seq<char>, glob: Option<Seq<char>>, symlinks: Seq<String>, non_ascii: Seq<String>, count: nat, bytes: nat)
    -> Seq<(Seq<char>, Seq<char>)>
{
    symlinks.map_values(|p: String| ("W_EMBED_DIR_SYMLINK_SKIPPED"@, symlink_message(rel, p@)))
        + non_ascii.map_values(|n: String| ("W_EMBED_DIR_NON_ASCII_PATH"@, non_ascii_message(rel, n@)))
        + (if bytes > EMBED_DIR_LARGE_BYTES || count > EMBED_DIR_LARGE_COUNT {
            seq![("W_EMBED_DIR_LARGE"@, large_message(rel, count, bytes))]
        } else {
            Seq::empty()
        })
        + (if count == 0 { seq![("W_EMBED_DIR_EMPTY"@, empty_message(rel, glob))] } else { Seq::empty() })
}

/// What a directory walk gives: a diagnostic for a key collision, then for
/// the first kept entry outside the root, then for the first kept entry
/// that could not be read; otherwise the embedded files and the warnings.
pub open spec fn dir_outcome(rel: Seq<char>, glob: Option<Seq<char>>, root: Seq<char>, es: Seq<DirEntryFound>, symlinks: Seq<String>, non_ascii: Seq<String>)
    -> Result<(Seq<Seq<char>>, Seq<(Seq<char>, Seq<char>)>), Seq<char>>
{
    match collision(es, es.len() as int) {
        Some((key, a, b)) => Err(collision_message(rel, key, a, b)),
        None => {
            let ks = kept(es, glob, es.len() as int);
            match first_outside(ks) {
                Some(p) => Err(outside_entry_message(p, root)),
                None => match first_unread(ks) {
                    Some((p, e)) => Err(entry_read_failed_message(p, e)),
                    None => Ok((abs_paths(ks), dir_warnings(rel, glob, symlinks, non_ascii, ks.len(), total_bytes(ks)))),
                },
            }
        },
    }
}

pub open spec fn warnings_view(v: Seq<EmbedWarning>) -> Seq<(Seq<char>, Seq<char>)> {
    v.map_values(|w: EmbedWarning| (w.rule@, w.message@))
}

pub open spec fn field_is(f: LitField, name: Seq<char>, span: Span) -> bool {
    f.name@ == name && !f.is_spread && !f.at_shorthand && f.span == span
}

/// `e` is the literal `EmbeddedEntry { path: .., data: .. }` of one entry.
pub open spec fn entry_lit_is(e: Expr, span: Span, p: (Seq<char>, Seq<u8>)) -> bool {
    &&& e.span == span
    &&& e.kind matches ExprKind::RecordLit { type_path, fields, inferred_map_v }
    &&& type_path matches Some(tp) && tp@.len() == 1 && tp@[0]@ == "EmbeddedEntry"@
    &&& inferred_map_v is None
    &&& fields.len() == 2
    &&& field_is(fields[0], "path"@, span)
    &&& fields[0].value matches Some(v) && v.span == span && (v.kind matches ExprKind::StrLit(s) && s@ == p.0)
    &&& field_is(fields[1], "data"@, span)
    &&& fields[1].value matches Some(v) && v.span == span && (v.kind matches ExprKind::HexBlobLit(b) && b@ == p.1)
}

/// `k` is `EmbeddedDir.new([..])` over the entries `pairs`.
pub open spec fn dir_value_is(k: ExprKind, span: Span, pairs: Seq<(Seq<char>, Seq<u8>)>) -> bool {
    &&& k matches ExprKind::Call { func, args }
    &&& func.span == span
    &&& func.kind matches ExprKind::Path(p) && p@.len() == 2 && p@[0]@ == "EmbeddedDir"@ && p@[1]@ == "new"@
    &&& args.len() == 1
    &&& args[0].span == span
    &&& args[0].kind matches ExprKind::ArrayLit(items) && items.len() == pairs.len()
        && forall|i: int| 0 <= i < pairs.len() ==> entry_lit_is(#[trigger] items[i], span, pairs[i])
}

/// The first of `es[..k]` with the key `key`, by position.
fn first_with_key(es: &Vec<DirEntryFound>, k: usize, key: &str) -> (r: Option<usize>)
    requires
        k <= es@.len(),
    ensures
        match first_raw(es@, k as int, key@) {
            Some(raw) => (r matches Some(j) && j < k && es@[j as int].raw@ == raw),
            None => r is None,
        },
{
    let mut j: usize = 0;
    while j < k
        invariant
            j <= k <= es@.len(),
            first_raw(es@, j as int, key@) is None,
        decreases k - j,
    {
        if str_eq(es[j].key.as_str(), key) {
            proof { lemma_first_raw_stays(es@, j as int + 1, k as int, key@); }
            return Some(j);
        }
        j = j + 1;
    }
    None
}

proof fn lemma_first_raw_stays(es: Seq<DirEntryFound>, j: int, k: int, key: Seq<char>)
    requires
        1 <= j <= k <= es.len(),
        first_raw(es, j, key) is Some,
    ensures
        first_raw(es, k, key) == first_raw(es, j, key),
    decreases k - j,
{
    if k > j {
        lemma_first_raw_stays(es, j, k - 1, key);
    }
}

proof fn lemma_collision_stays(es: Seq<DirEntryFound>, j: int, k: int)
    requires
        1 <= j <= k <= es.len(),
        collision(es, j) is Some,
    ensures
        collision(es, k) == collision(es, j),
    decreases k - j,
{
    if k > j {
        lemma_collision_stays(es, j, k - 1);
    }
}

pub open spec fn entry_derefs<'a>(v: Seq<&'a DirEntryFound>) -> Seq<DirEntryFound> {
    v.map_values(|r: &'a DirEntryFound| *r)
}

proof fn lemma_data_of_first(ks: Seq<DirEntryFound>, j: int, key: Seq<char>)
    requires
        0 <= j < ks.len(),
        ks[j].key@ == key,
        forall|i: int| 0 <= i < j ==> ks[i].key@ != key,
    ensures
        data_of(ks, key) == match ks[j].data {
            Ok(b) => b@,
            Err(_) => Seq::<u8>::empty(),
        },
    decreases ks.len(),
{
    if j < ks.len() - 1 {
        let d = ks.drop_last();
        assert(d[j] == ks[j]);
        assert(ks[j].key@ == key);
        assert forall|i: int| 0 <= i < j implies d[i].key@ != key by {
            assert(d[i] == ks[i]);
        }
        lemma_data_of_first(d, j, key);
    } else {
        assert(!exists|i: int| 0 <= i < ks.len() - 1 && #[trigger] ks[i].key@ == key);
    }
}

fn copy_bytes(b: &Vec<u8>) -> (r: Vec<u8>)
    ensures
        r@ == b@,
{
    let mut r: Vec<u8> = Vec::new();
    let mut i: usize = 0;
    while i < b.len()
        invariant
            i <= b@.len(),
            r@ == b@.take(i as int),
        decreases b@.len() - i,
    {
        r.push(b[i]);
        assert(b@.take(i as int + 1) =~= b@.take(i as int).push(b@[i as int]));
        i = i + 1;
    }
    assert(b@.take(b@.len() as int) =~= b@);
    r
}

/// `EmbeddedEntry { path: key, data: bytes }` at `span`.
fn entry_lit(key: &str, bytes: Vec<u8>, span: Span) -> (e: Expr)
    ensures
        entry_lit_is(e, span, (key@, bytes@)),
{
    let path_field = LitField {
        name: copy_str("path"),
        value: Some(Expr { kind: ExprKind::StrLit(copy_str(key)), span }),
        is_spread: false,
        at_shorthand: false,
        span,
    };
    let data_field = LitField {
        name: copy_str("data"),
        value: Some(Expr { kind: ExprKind::HexBlobLit(bytes), span }),
        is_spread: false,
        at_shorthand: false,
        span,
    };
    let fields = vec![path_field, data_field];
    let tp = vec![copy_str("EmbeddedEntry")];
    Expr { kind: ExprKind::RecordLit { type_path: Some(tp), fields, inferred_map_v: None }, span }
}

fn push_warning(ws: &mut Vec<EmbedWarning>, rule: &str, message: String, span: Span)
    ensures
        warnings_view(final(ws)@) == warnings_view(old(ws)@).push((rule@, message@)),
        final(ws)@.len() == old(ws)@.len() + 1,
        forall|i: int| 0 <= i < old(ws)@.len() ==> final(ws)@[i] == old(ws)@[i],
        final(ws)@.last().span == span,
{
    let ghost w0 = ws@;
    ws.push(EmbedWarning { rule: copy_str(rule), message, span });
    proof { assert(warnings_view(ws@) =~= warnings_view(w0).push((rule@, message@))); }
}

pub open spec fn opt_view(o: Option<String>) -> Option<Seq<char>> {
    match o {
        Some(g) => Some(g@),
        None => None,
    }
}

/// The warnings of a resolved directory (see `dir_warnings`).
fn dir_warning_list(rel: &str, glob: &Option<String>, symlinks: &Vec<String>, non_ascii: &Vec<String>, count: usize, bytes: u128, span: Span)
    -> (ws: Vec<EmbedWarning>)
    ensures
        warnings_view(ws@) == dir_warnings(rel@, opt_view(*glob), symlinks@, non_ascii@, count as nat, bytes as nat),
        forall|i: int| 0 <= i < ws@.len() ==> (#[trigger] ws@[i]).span == span,
{
    let mut ws: Vec<EmbedWarning> = Vec::new();
    let ghost g = opt_view(*glob);
    let ghost sv = symlinks@.map_values(|p: String| ("W_EMBED_DIR_SYMLINK_SKIPPED"@, symlink_message(rel@, p@)));
    let ghost nv = non_ascii@.map_values(|n: String| ("W_EMBED_DIR_NON_ASCII_PATH"@, non_ascii_message(rel@, n@)));
    let mut i: usize = 0;
    assert(warnings_view(ws@) =~= sv.take(0));
    while i < symlinks.len()
        invariant
            i <= symlinks@.len(),
            sv == symlinks@.map_values(|p: String| ("W_EMBED_DIR_SYMLINK_SKIPPED"@, symlink_message(rel@, p@))),
            warnings_view(ws@) == sv.take(i as int),
            forall|k: int| 0 <= k < ws@.len() ==> (#[trigger] ws@[k]).span == span,
        decreases symlinks@.len() - i,
    {
        let mut m = cat3("[W_EMBED_DIR_SYMLINK_SKIPPED] symlink skipped inside embed_dir(\"", rel, "\"): `");
        push_str(&mut m, symlinks[i].as_str());
        push_str(&mut m, "`");
        proof { assert(m@ =~= symlink_message(rel@, symlinks@[i as int]@)); }
        push_warning(&mut ws, "W_EMBED_DIR_SYMLINK_SKIPPED", m, span);
        assert(sv.take(i as int + 1) =~= sv.take(i as int).push(sv[i as int]));
        i = i + 1;
    }
    assert(sv.take(symlinks@.len() as int) =~= sv);
    let mut j: usize = 0;
    assert(nv.take(0) =~= Seq::<(Seq<char>, Seq<char>)>::empty());
    while j < non_ascii.len()
        invariant
            j <= non_ascii@.len(),
            nv == non_ascii@.map_values(|n: String| ("W_EMBED_DIR_NON_ASCII_PATH"@, non_ascii_message(rel@, n@))),
            warnings_view(ws@) == sv + nv.take(j as int),
            forall|k: int| 0 <= k < ws@.len() ==> (#[trigger] ws@[k]).span == span,
        decreases non_ascii@.len() - j,
    {
        let mut m = cat3("[W_EMBED_DIR_NON_ASCII_PATH] non-ASCII file name in embed_dir(\"", rel, "\"): `");
        push_str(&mut m, non_ascii[j].as_str());
        push_str(&mut m, "` — key is normalized to NFC for cross-OS reproducibility (macOS commonly gives NFD, Windows/Linux NFC); a form-collision with another entry is a hard error (E_EMBED_DIR_NFC_COLLISION), not a silent overwrite (D412-amendment, Plan 210 Ф.6а)");
        proof { assert(m@ =~= non_ascii_message(rel@, non_ascii@[j as int]@)); }
        push_warning(&mut ws, "W_EMBED_DIR_NON_ASCII_PATH", m, span);
        assert(nv.take(j as int + 1) =~= nv.take(j as int).push(nv[j as int]));
        j = j + 1;
    }
    assert(nv.take(non_ascii@.len() as int) =~= nv);
    let ghost base = sv + nv;
    if bytes > EMBED_DIR_LARGE_BYTES as u128 || count > EMBED_DIR_LARGE_COUNT {
        let mut m = cat3("[W_EMBED_DIR_LARGE] embed_dir(\"", rel, "\") embeds ");
        push_decimal(&mut m, count as u128);
        push_str(&mut m, " file(s), ");
        push_decimal(&mut m, bytes);
        push_str(&mut m, " bytes total — hex-blob text rendering expands ~5.3x in the generated .c; consider trimming the embedded tree");
        proof { assert(m@ =~= large_message(rel@, count as nat, bytes as nat)); }
        push_warning(&mut ws, "W_EMBED_DIR_LARGE", m, span);
    }
    let ghost base2 = warnings_view(ws@);
    if count == 0 {
        let mut m = cat3("[W_EMBED_DIR_EMPTY] embed_dir(\"", rel, "\") resolved to zero files after dot/symlink skip");
        match glob {
            Some(gl) => {
                push_str(&mut m, " and glob filter — check the path (glob: \"");
                push_str(&mut m, gl.as_str());
                push_str(&mut m, "\")");
                proof {
                    reveal_strlit(" and glob filter — check the path (glob: \"");
                    reveal_strlit(" and glob filter");
                    reveal_strlit(" — check the path");
                    reveal_strlit(" (glob: \"");
                    assert(m@ =~= empty_message(rel@, g));
                }
            },
            None => {
                push_str(&mut m, " — check the path");
                proof { assert(m@ =~= empty_message(rel@, g)); }
            },
        }
        push_warning(&mut ws, "W_EMBED_DIR_EMPTY", m, span);
    }
    proof {
        assert(warnings_view(ws@) =~= dir_warnings(rel@, g, symlinks@, non_ascii@, count as nat, bytes as nat));
    }
    ws
}

/// The value, embedded files and warnings of a directory walk, or its
/// diagnostic message (see `dir_outcome`).
#[verifier::rlimit(50)]
fn dir_answer(rel: &str, glob: &Option<String>, root: &str, es: &Vec<DirEntryFound>, symlinks: &Vec<String>, non_ascii: &Vec<String>, span: Span)
    -> (r: Result<(ExprKind, Vec<String>, Vec<EmbedWarning>), String>)
    ensures
        match dir_outcome(rel@, opt_view(*glob), root@, es@, symlinks@, non_ascii@) {
            Ok((files, warns)) => (r matches Ok((k, fs, ws)) && names_view(fs@) == files && warnings_view(ws@) == warns
                && (forall|i: int| 0 <= i < ws@.len() ==> (#[trigger] ws@[i]).span == span)
                && exists|pairs: Seq<(Seq<char>, Seq<u8>)>| dir_pairs_ok(pairs, kept(es@, opt_view(*glob), es@.len() as int))
                    && #[trigger] dir_value_is(k, span, pairs)),
            Err(m) => (r matches Err(x) && x@ == m),
        },
{
    let ghost g = opt_view(*glob);
    let n = es.len();
    // key collisions
    let mut k: usize = 0;
    while k < n
        invariant
            n == es@.len(),
            k <= n,
            collision(es@, k as int) is None,
        decreases n - k,
    {
        match first_with_key(es, k, es[k].key.as_str()) {
            Some(j) => {
                if !str_eq(es[j].raw.as_str(), es[k].raw.as_str()) {
                    proof {
                        if k + 1 < n {
                            lemma_collision_stays(es@, k as int + 1, n as int);
                        }
                    }
                    let mut m = cat3("[E_EMBED_DIR_NFC_COLLISION] embed_dir(\"", rel, "\") has two different entries that normalize to the same NFC path `");
                    push_str(&mut m, es[k].key.as_str());
                    push_str(&mut m, "`: `");
                    push_str(&mut m, es[j].raw.as_str());
                    push_str(&mut m, "` and `");
                    push_str(&mut m, es[k].raw.as_str());
                    push_str(&mut m, "` — rename one of them (D412-amendment, Plan 210)");
                    proof {
                        assert(m@ =~= collision_message(rel@, es@[k as int].key@, es@[j as int].raw@, es@[k as int].raw@));
                    }
                    return Err(m);
                }
            },
            None => {},
        }
        k = k + 1;
    }
    // the entries that pass the glob
    let mut ks: Vec<&DirEntryFound> = Vec::new();
    let mut i: usize = 0;
    assert(entry_derefs(ks@) =~= Seq::<DirEntryFound>::empty());
    while i < n
        invariant
            n == es@.len(),
            i <= n,
            g == opt_view(*glob),
            entry_derefs(ks@) == kept(es@, g, i as int),
        decreases n - i,
    {
        let keep = match glob {
            Some(pat) => crate::embed_resolve::glob_match_posix(pat.as_str(), es[i].key.as_str()),
            None => true,
        };
        if keep {
            let ghost k0 = ks@;
            ks.push(&es[i]);
            proof { assert(entry_derefs(ks@) =~= entry_derefs(k0).push(es@[i as int])); }
        }
        i = i + 1;
    }
    let ghost kv = kept(es@, g, n as int);
    // entries outside the root
    let mut a: usize = 0;
    while a < ks.len()
        invariant
            a <= ks@.len(),
            entry_derefs(ks@) == kv,
            kv == kept(es@, g, es@.len() as int),
            g == opt_view(*glob),
            collision(es@, es@.len() as int) is None,
            first_outside(kv.take(a as int)) is None,
        decreases ks@.len() - a,
    {
        assert(kv.take(a as int + 1).drop_last() =~= kv.take(a as int));
        assert(*ks[a as int] == kv[a as int]);
        assert(kv.take(a as int + 1).last() == kv[a as int]);
        if !ks[a].inside_root {
            proof { lemma_first_outside_stays(kv, a as int + 1); }
            return Err(cat5("[E_EMBED_OUTSIDE_PROJECT] embedded file `", ks[a].abs.as_str(), "` escapes the project root `", root, "` (D412-amendment, Plan 210)"));
        }
        a = a + 1;
    }
    assert(kv.take(kv.len() as int) =~= kv);
    // unreadable entries, the files and the total size
    let mut files: Vec<String> = Vec::new();
    let mut keys: Vec<String> = Vec::new();
    let mut total: u128 = 0;
    let mut b: usize = 0;
    while b < ks.len()
        invariant
            b <= ks@.len(),
            ks@.len() <= usize::MAX,
            entry_derefs(ks@) == kv,
            kv == kept(es@, g, es@.len() as int),
            g == opt_view(*glob),
            collision(es@, es@.len() as int) is None,
            first_outside(kv) is None,
            first_unread(kv.take(b as int)) is None,
            names_view(files@) == abs_paths(kv.take(b as int)),
            names_view(keys@) == keys_of(kv.take(b as int)),
            total as nat == total_bytes(kv.take(b as int)),
            total <= b * (usize::MAX as u128),
        decreases ks@.len() - b,
    {
        assert(kv.take(b as int + 1).drop_last() =~= kv.take(b as int));
        let e: &DirEntryFound = ks[b];
        assert(*e == kv[b as int]);
        assert(kv.take(b as int + 1).last() == kv[b as int]);
        match &e.data {
            Err(err) => {
                proof { lemma_first_unread_stays(kv, b as int + 1); }
                let mut m = cat3("[E_EMBED_DIR_NOT_FOUND] cannot read embedded file `", e.abs.as_str(), "`: ");
                push_str(&mut m, err.as_str());
                return Err(m);
            },
            Ok(bytes) => {
                assert(total + bytes.len() <= (b + 1) * (usize::MAX as u128) <= u128::MAX) by (nonlinear_arith)
                    requires
                        total <= b * (usize::MAX as u128),
                        bytes.len() <= usize::MAX,
                        b < usize::MAX;
                total = total + bytes.len() as u128;
            },
        }
        let ghost f0 = names_view(files@);
        let ghost k0 = names_view(keys@);
        files.push(copy_str(e.abs.as_str()));
        keys.push(copy_str(e.key.as_str()));
        proof {
            assert(names_view(files@) =~= f0.push(e.abs@));
            assert(abs_paths(kv.take(b as int + 1)) =~= abs_paths(kv.take(b as int)).push(e.abs@));
            assert(names_view(keys@) =~= k0.push(e.key@));
            assert(keys_of(kv.take(b as int + 1)) =~= keys_of(kv.take(b as int)).push(e.key@));
        }
        b = b + 1;
    }
    assert(kv.take(kv.len() as int) =~= kv);
    // the entries in increasing order of key
    let sorted = embed_dir_paths(&keys, None);
    let ghost pairs_acc: Seq<(Seq<char>, Seq<u8>)> = Seq::empty();
    let mut items: Vec<Expr> = Vec::new();
    let mut c: usize = 0;
    while c < sorted.len()
        invariant
            c <= sorted@.len(),
            entry_derefs(ks@) == kv,
            first_unread(kv) is None,
            names_view(keys@) == keys_of(kv),
            items@.len() == c,
            pairs_acc.len() == c,
            forall|q: int| 0 <= q < c ==> (#[trigger] pairs_acc[q]).0 == sorted@[q]@ && pairs_acc[q].1 == data_of(kv, pairs_acc[q].0),
            forall|q: int| 0 <= q < c ==> entry_lit_is(#[trigger] items@[q], span, pairs_acc[q]),
            forall|p: Seq<char>| #[trigger] names_view(sorted@).contains(p) <==> names_view(keys@).contains(p) && passes_glob(None, p),
        decreases sorted@.len() - c,
    {
        let key: &str = sorted[c].as_str();
        proof {
            assert(names_view(sorted@)[c as int] == key@);
            assert(names_view(sorted@).contains(key@));
            assert(keys_of(kv).contains(key@));
        }
        // the first kept entry with this key
        let mut t: usize = 0;
        while t < ks.len() && !str_eq(ks[t].key.as_str(), key)
            invariant
                t <= ks@.len(),
                entry_derefs(ks@) == kv,
                forall|q: int| 0 <= q < t ==> kv[q].key@ != key@,
            decreases ks@.len() - t,
        {
            assert(*ks[t as int] == kv[t as int]);
            t = t + 1;
        }
        if t >= ks.len() {
            proof {
                let w = choose|w: int| 0 <= w < keys_of(kv).len() && keys_of(kv)[w] == key@;
                assert(keys_of(kv)[w] == kv[w].key@);
                assert(kv[w].key@ == key@);
                assert(false);
            }
            return Err(String::new());
        }
        assert(*ks[t as int] == kv[t as int]);
        proof {
            lemma_data_of_first(kv, t as int, key@);
            lemma_first_unread_none(kv, t as int);
        }
        let bytes: Vec<u8> = match &ks[t].data {
            Ok(bs) => copy_bytes(bs),
            Err(_) => Vec::new(),
        };
        let ghost p = (key@, bytes@);
        items.push(entry_lit(key, bytes, span));
        proof {
            pairs_acc = pairs_acc.push(p);
        }
        c = c + 1;
    }
    let ghost pairs = pairs_acc;
    proof {
        assert(pair_keys(pairs) =~= names_view(sorted@));
        assert forall|key: Seq<char>| #[trigger] pair_keys(pairs).contains(key) <==> keys_of(kv).contains(key) by {
            assert(passes_glob(None, key));
        }
        assert(dir_pairs_ok(pairs, kv));
    }
    let path = vec![copy_str("EmbeddedDir"), copy_str("new")];
    let func = Expr { kind: ExprKind::Path(path), span };
    let arr = Expr { kind: ExprKind::ArrayLit(items), span };
    let kind = ExprKind::Call { func: Box::new(func), args: vec![arr] };
    proof {
        assert(dir_value_is(kind, span, pairs));
    }
    let ws = dir_warning_list(rel, glob, symlinks, non_ascii, files.len(), total, span);
    proof {
        assert(abs_paths(kv).len() == kv.len());
    }
    Ok((kind, files, ws))
}

proof fn lemma_first_outside_stays(ks: Seq<DirEntryFound>, j: int)
    requires
        1 <= j <= ks.len(),
        first_outside(ks.take(j)) is Some,
    ensures
        first_outside(ks) == first_outside(ks.take(j)),
    decreases ks.len() - j,
{
    if j < ks.len() {
        assert(ks.take(j + 1).drop_last() =~= ks.take(j));
        lemma_first_outside_stays(ks, j + 1);
    } else {
        assert(ks.take(j) =~= ks);
    }
}

proof fn lemma_first_unread_stays(ks: Seq<DirEntryFound>, j: int)
    requires
        1 <= j <= ks.len(),
        first_unread(ks.take(j)) is Some,
    ensures
        first_unread(ks) == first_unread(ks.take(j)),
    decreases ks.len() - j,
{
    if j < ks.len() {
        assert(ks.take(j + 1).drop_last() =~= ks.take(j));
        lemma_first_unread_stays(ks, j + 1);
    } else {
        assert(ks.take(j) =~= ks);
    }
}

proof fn lemma_first_unread_none(ks: Seq<DirEntryFound>, t: int)
    requires
        0 <= t < ks.len(),
        first_unread(ks) is None,
    ensures
        ks[t].data is Ok,
    decreases ks.len(),
{
    if t < ks.len() - 1 {
        let d = ks.drop_last();
        assert(d[t] == ks[t]);
        lemma_first_unread_none(d, t);
    }
}

fn take_value(vals: &mut Vec<Option<ExprKind>>, i: usize) -> (r: Option<ExprKind>)
    requires
        i < old(vals)@.len(),
    ensures
        r == old(vals)@[i as int],
        final(vals)@ == old(vals)@.update(i as int, None),
{
    vals[i].take()
}

/// `b` is `a` with its intrinsic calls replaced, in walk order, by the
/// values `vs[k..]`.
pub open spec fn rep_expr(a: Expr, b: Expr, vs: Seq<Option<ExprKind>>, k: int) -> bool
    decreases a, 0int,
{
    b.span == a.span && if intrinsic_of(a) is Some {
        vs[k] == Some(b.kind)
    } else {
        match a.kind {
            ExprKind::Member { obj, name } => b.kind matches ExprKind::Member { obj: o2, name: n2 } && n2 == name
                && rep_expr(*obj, *o2, vs, k),
            ExprKind::Call { func, args } => b.kind matches ExprKind::Call { func: f2, args: a2 }
                && rep_expr(*func, *f2, vs, k) && rep_exprs(args, a2, vs, k + calls_expr(*func).len(), args.len() as int),
            ExprKind::Binary { op, left, right } => b.kind matches ExprKind::Binary { op: op2, left: l2, right: r2 } && op2 == op
                && rep_expr(*left, *l2, vs, k) && rep_expr(*right, *r2, vs, k + calls_expr(*left).len()),
            ExprKind::Unary { op, operand } => b.kind matches ExprKind::Unary { op: op2, operand: x2 } && op2 == op
                && rep_expr(*operand, *x2, vs, k),
            ExprKind::Index { obj, index } => b.kind matches ExprKind::Index { obj: o2, index: i2 }
                && rep_expr(*obj, *o2, vs, k) && rep_expr(*index, *i2, vs, k + calls_expr(*obj).len()),
            ExprKind::If { cond, then, else_ } => b.kind matches ExprKind::If { cond: c2, then: t2, else_: e2 }
                && rep_expr(*cond, *c2, vs, k) && rep_block(then, t2, vs, k + calls_expr(*cond).len()) && match else_ {
                    Some(ElseBranch::Block(x)) => e2 matches Some(ElseBranch::Block(y))
                        && rep_block(x, y, vs, k + calls_expr(*cond).len() + calls_block(then).len()),
                    Some(ElseBranch::If(x)) => e2 matches Some(ElseBranch::If(y))
                        && rep_expr(*x, *y, vs, k + calls_expr(*cond).len() + calls_block(then).len()),
                    None => e2 is None,
                },
            ExprKind::IfLet { pattern, scrutinee: cond, then, else_ } => b.kind matches ExprKind::IfLet { pattern: p2, scrutinee: c2, then: t2, else_: e2 } && p2 == pattern
                && rep_expr(*cond, *c2, vs, k) && rep_block(then, t2, vs, k + calls_expr(*cond).len()) && match else_ {
                    Some(ElseBranch::Block(x)) => e2 matches Some(ElseBranch::Block(y))
                        && rep_block(x, y, vs, k + calls_expr(*cond).len() + calls_block(then).len()),
                    Some(ElseBranch::If(x)) => e2 matches Some(ElseBranch::If(y))
                        && rep_expr(*x, *y, vs, k + calls_expr(*cond).len() + calls_block(then).len()),
                    None => e2 is None,
                },
            ExprKind::While { cond, body } => b.kind matches ExprKind::While { cond: c2, body: b2 }
                && rep_expr(*cond, *c2, vs, k) && rep_block(body, b2, vs, k + calls_expr(*cond).len()),
            ExprKind::WhileLet { pattern, scrutinee: cond, body } => b.kind matches ExprKind::WhileLet { pattern: p2, scrutinee: c2, body: b2 } && p2 == pattern
                && rep_expr(*cond, *c2, vs, k) && rep_block(body, b2, vs, k + calls_expr(*cond).len()),
            ExprKind::For { var, iter: cond, body } => b.kind matches ExprKind::For { var: v2, iter: c2, body: b2 } && v2 == var
                && rep_expr(*cond, *c2, vs, k) && rep_block(body, b2, vs, k + calls_expr(*cond).len()),
            ExprKind::ParallelFor { var, iter: cond, body } => b.kind matches ExprKind::ParallelFor { var: v2, iter: c2, body: b2 } && v2 == var
                && rep_expr(*cond, *c2, vs, k) && rep_block(body, b2, vs, k + calls_expr(*cond).len()),
            ExprKind::Match { scrutinee, arms } => b.kind matches ExprKind::Match { scrutinee: s2, arms: a2 }
                && rep_expr(*scrutinee, *s2, vs, k) && rep_arms(arms, a2, vs, k + calls_expr(*scrutinee).len(), arms.len() as int),
            ExprKind::Block(x) => b.kind matches ExprKind::Block(y) && rep_block(x, y, vs, k),
            ExprKind::Lambda { params, body } => b.kind matches ExprKind::Lambda { params: p2, body: y } && p2 == params
                && rep_expr(*body, *y, vs, k),
            ExprKind::Spawn(x) => b.kind matches ExprKind::Spawn(y) && rep_expr(*x, *y, vs, k),
            ExprKind::NamedArg { name, value } => b.kind matches ExprKind::NamedArg { name: n2, value: y } && n2 == name
                && rep_expr(*value, *y, vs, k),
            ExprKind::Try(value) => b.kind matches ExprKind::Try(y) && rep_expr(*value, *y, vs, k),
            ExprKind::TupleLit(items) => b.kind matches ExprKind::TupleLit(i2) && rep_exprs(items, i2, vs, k, items.len() as int),
            ExprKind::ArrayLit(items) => b.kind matches ExprKind::ArrayLit(i2) && rep_exprs(items, i2, vs, k, items.len() as int),
            ExprKind::RecordLit { type_path, fields, inferred_map_v } => b.kind matches ExprKind::RecordLit {
                type_path: t2, fields: f2, inferred_map_v: m2 } && t2 == type_path && m2 == inferred_map_v
                && rep_fields(fields, f2, vs, k, fields.len() as int),
            _ => b == a,
        }
    }
}

pub open spec fn rep_exprs(a: Vec<Expr>, b: Vec<Expr>, vs: Seq<Option<ExprKind>>, k: int, n: int) -> bool
    decreases a, n,
{
    a.len() == b.len() && (n <= 0 || n > a.len() || (rep_exprs(a, b, vs, k, n - 1)
        && rep_expr(a[n - 1], b[n - 1], vs, k + calls_exprs(a, n - 1).len())))
}

pub open spec fn rep_fields(a: Vec<RecordLitField>, b: Vec<RecordLitField>, vs: Seq<Option<ExprKind>>, k: int, n: int) -> bool
    decreases a, n,
{
    a.len() == b.len() && (n <= 0 || n > a.len() || (rep_fields(a, b, vs, k, n - 1)
        && b[n - 1].name == a[n - 1].name && b[n - 1].is_spread == a[n - 1].is_spread
        && b[n - 1].at_shorthand == a[n - 1].at_shorthand && b[n - 1].span == a[n - 1].span
        && match a[n - 1].value {
            Some(x) => b[n - 1].value matches Some(y) && rep_expr(x, y, vs, k + calls_fields(a, n - 1).len()),
            None => b[n - 1].value is None,
        }))
}

pub open spec fn rep_arms(a: Vec<MatchArm>, b: Vec<MatchArm>, vs: Seq<Option<ExprKind>>, k: int, n: int) -> bool
    decreases a, n,
{
    a.len() == b.len() && (n <= 0 || n > a.len() || (rep_arms(a, b, vs, k, n - 1)
        && b[n - 1].pattern == a[n - 1].pattern
        && match a[n - 1].body {
            MatchArmBody::Expr(x) => b[n - 1].body matches MatchArmBody::Expr(y) && rep_expr(x, y, vs, k + calls_arms(a, n - 1).len()),
            MatchArmBody::Block(x) => b[n - 1].body matches MatchArmBody::Block(y) && rep_block(x, y, vs, k + calls_arms(a, n - 1).len()),
        }))
}

pub open spec fn rep_block(a: Block, b: Block, vs: Seq<Option<ExprKind>>, k: int) -> bool
    decreases a, 1int,
{
    &&& b.span == a.span
    &&& rep_stmts(a.stmts, b.stmts, vs, k, a.stmts.len() as int)
    &&& match a.trailing {
        Some(x) => b.trailing matches Some(y) && rep_expr(*x, *y, vs, k + calls_stmts(a.stmts, a.stmts.len() as int).len()),
        None => b.trailing is None,
    }
}

pub open spec fn rep_stmts(a: Vec<Stmt>, b: Vec<Stmt>, vs: Seq<Option<ExprKind>>, k: int, n: int) -> bool
    decreases a, n,
{
    a.len() == b.len() && (n <= 0 || n > a.len() || (rep_stmts(a, b, vs, k, n - 1)
        && rep_stmt(a[n - 1], b[n - 1], vs, k + calls_stmts(a, n - 1).len())))
}

pub open spec fn rep_stmt(a: Stmt, b: Stmt, vs: Seq<Option<ExprKind>>, k: int) -> bool
    decreases a, 0int,
{
    match a {
        Stmt::Let(d) => b matches Stmt::Let(d2) && d2.mutable == d.mutable && d2.pattern == d.pattern && d2.ty == d.ty
            && d2.span == d.span && rep_expr(d.value, d2.value, vs, k),
        Stmt::Assign { target, value, span } => b matches Stmt::Assign { target: t2, value: v2, span: s2 } && s2 == span
            && rep_expr(target, t2, vs, k) && rep_expr(value, v2, vs, k + calls_expr(target).len()),
        Stmt::Expr(x) => b matches Stmt::Expr(y) && rep_expr(x, y, vs, k),
        Stmt::Return { value, span } => b matches Stmt::Return { value: v2, span: s2 } && s2 == span && match value {
            Some(x) => v2 matches Some(y) && rep_expr(x, y, vs, k),
            None => v2 is None,
        },
        _ => b == a,
    }
}

/// From position `p` on, `vals` still holds the values `vs`.
pub open spec fn stock(vals: Seq<Option<ExprKind>>, vs: Seq<Option<ExprKind>>, p: int) -> bool {
    &&& vals.len() == vs.len()
    &&& forall|j: int| p <= j < vs.len() ==> vals[j] == vs[j]
}

pub open spec fn all_some(vs: Seq<Option<ExprKind>>) -> bool {
    forall|j: int| 0 <= j < vs.len() ==> (#[trigger] vs[j]) is Some
}

fn is_intrinsic(e: &Expr) -> (r: bool)
    ensures
        r == (intrinsic_of(*e) is Some),
{
    match &e.kind {
        ExprKind::Call { func, .. } => match &func.kind {
            ExprKind::Ident(n) => str_eq(n.as_str(), "embed") || str_eq(n.as_str(), "embed_str") || str_eq(n.as_str(), "embed_dir"),
            _ => false,
        },
        _ => false,
    }
}

fn rep_expr_x(e: Expr, vals: &mut Vec<Option<ExprKind>>, pos: &mut usize, Ghost(vs): Ghost<Seq<Option<ExprKind>>>) -> (r: Expr)
    requires
        stock(old(vals)@, vs, *old(pos) as int),
        *old(pos) + calls_expr(e).len() <= vs.len(),
        all_some(vs),
    ensures
        stock(final(vals)@, vs, *final(pos) as int),
        *final(pos) == *old(pos) + calls_expr(e).len(),
        rep_expr(e, r, vs, *old(pos) as int),
    decreases e, 0int,
{
    let ghost p0 = *pos as int;
    let span = e.span;
    if is_intrinsic(&e) {
        assert(vals@[*pos as int] == vs[*pos as int]);
        assert(vs[*pos as int] is Some);
        assert(calls_expr(e).len() == 1);
        let n = vals.len();
        assert(*pos + 1 <= n);
        let v = take_value(vals, *pos);
        *pos = *pos + 1;
        let kind = match v {
            Some(k) => k,
            None => ExprKind::UnitLit,
        };
        return Expr { kind, span };
    }
    let ghost old_e = e;
    let kind = match e.kind {
        ExprKind::Member { obj, name } => ExprKind::Member { obj: Box::new(rep_expr_x(*obj, vals, pos, Ghost(vs))), name },
        ExprKind::Call { func, args } => {
            let f2 = rep_expr_x(*func, vals, pos, Ghost(vs));
            let a2 = rep_exprs_x(args, vals, pos, Ghost(vs));
            ExprKind::Call { func: Box::new(f2), args: a2 }
        },
        ExprKind::Binary { op, left, right } => {
            let l2 = rep_expr_x(*left, vals, pos, Ghost(vs));
            let r2 = rep_expr_x(*right, vals, pos, Ghost(vs));
            ExprKind::Binary { op, left: Box::new(l2), right: Box::new(r2) }
        },
        ExprKind::Unary { op, operand } => ExprKind::Unary { op, operand: Box::new(rep_expr_x(*operand, vals, pos, Ghost(vs))) },
        ExprKind::Index { obj, index } => {
            let o2 = rep_expr_x(*obj, vals, pos, Ghost(vs));
            let i2 = rep_expr_x(*index, vals, pos, Ghost(vs));
            ExprKind::Index { obj: Box::new(o2), index: Box::new(i2) }
        },
        ExprKind::If { cond, then, else_ } => {
            let c2 = rep_expr_x(*cond, vals, pos, Ghost(vs));
            let t2 = rep_block_x(then, vals, pos, Ghost(vs));
            let e2 = match else_ {
                Some(ElseBranch::Block(x)) => Some(ElseBranch::Block(rep_block_x(x, vals, pos, Ghost(vs)))),
                Some(ElseBranch::If(x)) => Some(ElseBranch::If(Box::new(rep_expr_x(*x, vals, pos, Ghost(vs))))),
                None => None,
            };
            ExprKind::If { cond: Box::new(c2), then: t2, else_: e2 }
        },
        ExprKind::IfLet { pattern, scrutinee: cond, then, else_ } => {
            let c2 = rep_expr_x(*cond, vals, pos, Ghost(vs));
            let t2 = rep_block_x(then, vals, pos, Ghost(vs));
            let e2 = match else_ {
                Some(ElseBranch::Block(x)) => Some(ElseBranch::Block(rep_block_x(x, vals, pos, Ghost(vs)))),
                Some(ElseBranch::If(x)) => Some(ElseBranch::If(Box::new(rep_expr_x(*x, vals, pos, Ghost(vs))))),
                None => None,
            };
            ExprKind::IfLet { pattern, scrutinee: Box::new(c2), then: t2, else_: e2 }
        },
        ExprKind::While { cond, body } => {
            let c2 = rep_expr_x(*cond, vals, pos, Ghost(vs));
            let b2 = rep_block_x(body, vals, pos, Ghost(vs));
            ExprKind::While { cond: Box::new(c2), body: b2 }
        },
        ExprKind::WhileLet { pattern, scrutinee: cond, body } => {
            let c2 = rep_expr_x(*cond, vals, pos, Ghost(vs));
            let b2 = rep_block_x(body, vals, pos, Ghost(vs));
            ExprKind::WhileLet { pattern, scrutinee: Box::new(c2), body: b2 }
        },
        ExprKind::For { var, iter: cond, body } => {
            let c2 = rep_expr_x(*cond, vals, pos, Ghost(vs));
            let b2 = rep_block_x(body, vals, pos, Ghost(vs));
            ExprKind::For { var, iter: Box::new(c2), body: b2 }
        },
        ExprKind::ParallelFor { var, iter: cond, body } => {
            let c2 = rep_expr_x(*cond, vals, pos, Ghost(vs));
            let b2 = rep_block_x(body, vals, pos, Ghost(vs));
            ExprKind::ParallelFor { var, iter: Box::new(c2), body: b2 }
        },
        ExprKind::Match { scrutinee, arms } => {
            let s2 = rep_expr_x(*scrutinee, vals, pos, Ghost(vs));
            let a2 = rep_arms_x(arms, vals, pos, Ghost(vs));
            ExprKind::Match { scrutinee: Box::new(s2), arms: a2 }
        },
        ExprKind::Block(x) => ExprKind::Block(rep_block_x(x, vals, pos, Ghost(vs))),
        ExprKind::Lambda { params, body } => ExprKind::Lambda { params, body: Box::new(rep_expr_x(*body, vals, pos, Ghost(vs))) },
        ExprKind::Spawn(x) => ExprKind::Spawn(Box::new(rep_expr_x(*x, vals, pos, Ghost(vs)))),
        ExprKind::NamedArg { name, value } => ExprKind::NamedArg { name, value: Box::new(rep_expr_x(*value, vals, pos, Ghost(vs))) },
        ExprKind::Try(value) => ExprKind::Try(Box::new(rep_expr_x(*value, vals, pos, Ghost(vs)))),
        ExprKind::TupleLit(items) => ExprKind::TupleLit(rep_exprs_x(items, vals, pos, Ghost(vs))),
        ExprKind::ArrayLit(items) => ExprKind::ArrayLit(rep_exprs_x(items, vals, pos, Ghost(vs))),
        ExprKind::RecordLit { type_path, fields, inferred_map_v } => ExprKind::RecordLit {
            type_path,
            fields: rep_fields_x(fields, vals, pos, Ghost(vs)),
            inferred_map_v,
        },
        other => other,
    };
    Expr { kind, span }
}

fn rep_exprs_x(v: Vec<Expr>, vals: &mut Vec<Option<ExprKind>>, pos: &mut usize, Ghost(vs): Ghost<Seq<Option<ExprKind>>>) -> (r: Vec<Expr>)
    requires
        stock(old(vals)@, vs, *old(pos) as int),
        *old(pos) + calls_exprs(v, v.len() as int).len() <= vs.len(),
        all_some(vs),
    ensures
        stock(final(vals)@, vs, *final(pos) as int),
        *final(pos) == *old(pos) + calls_exprs(v, v.len() as int).len(),
        rep_exprs(v, r, vs, *old(pos) as int, v.len() as int),
    decreases v, v.len(),
{
    let ghost orig = v;
    let ghost p0 = *pos as int;
    let mut rest = v;
    let mut out: Vec<Expr> = Vec::new();
    while rest.len() > 0
        invariant
            orig == v,
            out.len() + rest.len() == orig.len(),
            rest@ == orig@.subrange(out.len() as int, orig.len() as int),
            stock(vals@, vs, *pos as int),
            all_some(vs),
            *pos == p0 + calls_exprs(orig, out.len() as int).len(),
            p0 + calls_exprs(orig, orig.len() as int).len() <= vs.len(),
            forall|i: int| 0 <= i < out.len() ==> rep_expr(orig[i], out[i], vs, p0 + calls_exprs(orig, i).len()),
        decreases rest.len(),
    {
        let ghost i = out.len() as int;
        let x = rest.remove(0);
        proof {
            assert(x == orig[i]);
            assert(decreases_to!(orig => orig[i]));
            lemma_calls_exprs_mono(orig, i + 1, orig.len() as int);
        }
        let y = rep_expr_x(x, vals, pos, Ghost(vs));
        out.push(y);
        proof {
            assert(rest@ =~= orig@.subrange(out.len() as int, orig.len() as int));
        }
    }
    proof { lemma_rep_exprs_all(orig, out, vs, p0, orig.len() as int); }
    out
}

proof fn lemma_calls_exprs_mono(v: Vec<Expr>, i: int, n: int)
    requires
        0 <= i <= n <= v.len(),
    ensures
        calls_exprs(v, i).len() <= calls_exprs(v, n).len(),
    decreases n - i,
{
    if i < n {
        lemma_calls_exprs_mono(v, i, n - 1);
    }
}

proof fn lemma_rep_exprs_all(a: Vec<Expr>, b: Vec<Expr>, vs: Seq<Option<ExprKind>>, k: int, n: int)
    requires
        a.len() == b.len(),
        0 <= n <= a.len(),
        forall|i: int| 0 <= i < b.len() ==> rep_expr(a[i], b[i], vs, k + calls_exprs(a, i).len()),
    ensures
        rep_exprs(a, b, vs, k, n),
    decreases n,
{
    if n > 0 {
        lemma_rep_exprs_all(a, b, vs, k, n - 1);
    }
}

fn rep_fields_x(v: Vec<RecordLitField>, vals: &mut Vec<Option<ExprKind>>, pos: &mut usize, Ghost(vs): Ghost<Seq<Option<ExprKind>>>) -> (r: Vec<RecordLitField>)
    requires
        stock(old(vals)@, vs, *old(pos) as int),
        *old(pos) + calls_fields(v, v.len() as int).len() <= vs.len(),
        all_some(vs),
    ensures
        stock(final(vals)@, vs, *final(pos) as int),
        *final(pos) == *old(pos) + calls_fields(v, v.len() as int).len(),
        rep_fields(v, r, vs, *old(pos) as int, v.len() as int),
    decreases v, v.len(),
{
    let ghost orig = v;
    let ghost p0 = *pos as int;
    let mut rest = v;
    let mut out: Vec<RecordLitField> = Vec::new();
    while rest.len() > 0
        invariant
            orig == v,
            out.len() + rest.len() == orig.len(),
            rest@ == orig@.subrange(out.len() as int, orig.len() as int),
            stock(vals@, vs, *pos as int),
            all_some(vs),
            *pos == p0 + calls_fields(orig, out.len() as int).len(),
            p0 + calls_fields(orig, orig.len() as int).len() <= vs.len(),
            forall|i: int| 0 <= i < out.len() ==> field_rep(orig[i], out[i], vs, p0 + calls_fields(orig, i).len()),
        decreases rest.len(),
    {
        let ghost i = out.len() as int;
        let x = rest.remove(0);
        proof {
            assert(x == orig[i]);
            assert(decreases_to!(orig => orig[i]));
            lemma_calls_fields_mono(orig, i + 1, orig.len() as int);
        }
        let RecordLitField { name, value, is_spread, at_shorthand, span } = x;
        let v2 = match value {
            Some(val) => Some(rep_expr_x(val, vals, pos, Ghost(vs))),
            None => None,
        };
        out.push(RecordLitField { name, value: v2, is_spread, at_shorthand, span });
        proof {
            assert(rest@ =~= orig@.subrange(out.len() as int, orig.len() as int));
        }
    }
    proof { lemma_rep_fields_all(orig, out, vs, p0, orig.len() as int); }
    out
}

pub open spec fn field_rep(a: RecordLitField, b: RecordLitField, vs: Seq<Option<ExprKind>>, k: int) -> bool {
    b.name == a.name && b.is_spread == a.is_spread && b.at_shorthand == a.at_shorthand && b.span == a.span
        && match a.value {
            Some(x) => b.value matches Some(y) && rep_expr(x, y, vs, k),
            None => b.value is None,
        }
}

proof fn lemma_calls_fields_mono(v: Vec<RecordLitField>, i: int, n: int)
    requires
        0 <= i <= n <= v.len(),
    ensures
        calls_fields(v, i).len() <= calls_fields(v, n).len(),
    decreases n - i,
{
    if i < n {
        lemma_calls_fields_mono(v, i, n - 1);
    }
}

proof fn lemma_rep_fields_all(a: Vec<RecordLitField>, b: Vec<RecordLitField>, vs: Seq<Option<ExprKind>>, k: int, n: int)
    requires
        a.len() == b.len(),
        0 <= n <= a.len(),
        forall|i: int| 0 <= i < b.len() ==> field_rep(a[i], b[i], vs, k + calls_fields(a, i).len()),
    ensures
        rep_fields(a, b, vs, k, n),
    decreases n,
{
    if n > 0 {
        lemma_rep_fields_all(a, b, vs, k, n - 1);
    }
}

fn rep_arms_x(v: Vec<MatchArm>, vals: &mut Vec<Option<ExprKind>>, pos: &mut usize, Ghost(vs): Ghost<Seq<Option<ExprKind>>>) -> (r: Vec<MatchArm>)
    requires
        stock(old(vals)@, vs, *old(pos) as int),
        *old(pos) + calls_arms(v, v.len() as int).len() <= vs.len(),
        all_some(vs),
    ensures
        stock(final(vals)@, vs, *final(pos) as int),
        *final(pos) == *old(pos) + calls_arms(v, v.len() as int).len(),
        rep_arms(v, r, vs, *old(pos) as int, v.len() as int),
    decreases v, v.len(),
{
    let ghost orig = v;
    let ghost p0 = *pos as int;
    let mut rest = v;
    let mut out: Vec<MatchArm> = Vec::new();
    while rest.len() > 0
        invariant
            orig == v,
            out.len() + rest.len() == orig.len(),
            rest@ == orig@.subrange(out.len() as int, orig.len() as int),
            stock(vals@, vs, *pos as int),
            all_some(vs),
            *pos == p0 + calls_arms(orig, out.len() as int).len(),
            p0 + calls_arms(orig, orig.len() as int).len() <= vs.len(),
            forall|i: int| 0 <= i < out.len() ==> arm_rep(orig[i], out[i], vs, p0 + calls_arms(orig, i).len()),
        decreases rest.len(),
    {
        let ghost i = out.len() as int;
        let x = rest.remove(0);
        proof {
            assert(x == orig[i]);
            assert(decreases_to!(orig => orig[i]));
            lemma_calls_arms_mono(orig, i + 1, orig.len() as int);
        }
        let MatchArm { pattern, body } = x;
        let b2 = match body {
            MatchArmBody::Expr(y) => MatchArmBody::Expr(rep_expr_x(y, vals, pos, Ghost(vs))),
            MatchArmBody::Block(y) => MatchArmBody::Block(rep_block_x(y, vals, pos, Ghost(vs))),
        };
        out.push(MatchArm { pattern, body: b2 });
        proof {
            assert(rest@ =~= orig@.subrange(out.len() as int, orig.len() as int));
        }
    }
    proof { lemma_rep_arms_all(orig, out, vs, p0, orig.len() as int); }
    out
}

pub open spec fn arm_rep(a: MatchArm, b: MatchArm, vs: Seq<Option<ExprKind>>, k: int) -> bool {
    b.pattern == a.pattern && match a.body {
        MatchArmBody::Expr(x) => b.body matches MatchArmBody::Expr(y) && rep_expr(x, y, vs, k),
        MatchArmBody::Block(x) => b.body matches MatchArmBody::Block(y) && rep_block(x, y, vs, k),
    }
}

proof fn lemma_calls_arms_mono(v: Vec<MatchArm>, i: int, n: int)
    requires
        0 <= i <= n <= v.len(),
    ensures
        calls_arms(v, i).len() <= calls_arms(v, n).len(),
    decreases n - i,
{
    if i < n {
        lemma_calls_arms_mono(v, i, n - 1);
    }
}

proof fn lemma_rep_arms_all(a: Vec<MatchArm>, b: Vec<MatchArm>, vs: Seq<Option<ExprKind>>, k: int, n: int)
    requires
        a.len() == b.len(),
        0 <= n <= a.len(),
        forall|i: int| 0 <= i < b.len() ==> arm_rep(a[i], b[i], vs, k + calls_arms(a, i).len()),
    ensures
        rep_arms(a, b, vs, k, n),
    decreases n,
{
    if n > 0 {
        lemma_rep_arms_all(a, b, vs, k, n - 1);
    }
}

fn rep_block_x(b: Block, vals: &mut Vec<Option<ExprKind>>, pos: &mut usize, Ghost(vs): Ghost<Seq<Option<ExprKind>>>) -> (r: Block)
    requires
        stock(old(vals)@, vs, *old(pos) as int),
        *old(pos) + calls_block(b).len() <= vs.len(),
        all_some(vs),
    ensures
        stock(final(vals)@, vs, *final(pos) as int),
        *final(pos) == *old(pos) + calls_block(b).len(),
        rep_block(b, r, vs, *old(pos) as int),
    decreases b, 1int,
{
    let Block { stmts, trailing, span } = b;
    let s2 = rep_stmts_x(stmts, vals, pos, Ghost(vs));
    let t2 = match trailing {
        Some(x) => Some(Box::new(rep_expr_x(*x, vals, pos, Ghost(vs)))),
        None => None,
    };
    Block { stmts: s2, trailing: t2, span }
}

fn rep_stmts_x(v: Vec<Stmt>, vals: &mut Vec<Option<ExprKind>>, pos: &mut usize, Ghost(vs): Ghost<Seq<Option<ExprKind>>>) -> (r: Vec<Stmt>)
    requires
        stock(old(vals)@, vs, *old(pos) as int),
        *old(pos) + calls_stmts(v, v.len() as int).len() <= vs.len(),
        all_some(vs),
    ensures
        stock(final(vals)@, vs, *final(pos) as int),
        *final(pos) == *old(pos) + calls_stmts(v, v.len() as int).len(),
        rep_stmts(v, r, vs, *old(pos) as int, v.len() as int),
    decreases v, v.len(),
{
    let ghost orig = v;
    let ghost p0 = *pos as int;
    let mut rest = v;
    let mut out: Vec<Stmt> = Vec::new();
    while rest.len() > 0
        invariant
            orig == v,
            out.len() + rest.len() == orig.len(),
            rest@ == orig@.subrange(out.len() as int, orig.len() as int),
            stock(vals@, vs, *pos as int),
            all_some(vs),
            *pos == p0 + calls_stmts(orig, out.len() as int).len(),
            p0 + calls_stmts(orig, orig.len() as int).len() <= vs.len(),
            forall|i: int| 0 <= i < out.len() ==> rep_stmt(orig[i], out[i], vs, p0 + calls_stmts(orig, i).len()),
        decreases rest.len(),
    {
        let ghost i = out.len() as int;
        let x = rest.remove(0);
        proof {
            assert(x == orig[i]);
            assert(decreases_to!(orig => orig[i]));
            lemma_calls_stmts_mono(orig, i + 1, orig.len() as int);
        }
        let y = rep_stmt_x(x, vals, pos, Ghost(vs));
        out.push(y);
        proof {
            assert(rest@ =~= orig@.subrange(out.len() as int, orig.len() as int));
        }
    }
    proof { lemma_rep_stmts_all(orig, out, vs, p0, orig.len() as int); }
    out
}

proof fn lemma_calls_stmts_mono(v: Vec<Stmt>, i: int, n: int)
    requires
        0 <= i <= n <= v.len(),
    ensures
        calls_stmts(v, i).len() <= calls_stmts(v, n).len(),
    decreases n - i,
{
    if i < n {
        lemma_calls_stmts_mono(v, i, n - 1);
    }
}

proof fn lemma_rep_stmts_all(a: Vec<Stmt>, b: Vec<Stmt>, vs: Seq<Option<ExprKind>>, k: int, n: int)
    requires
        a.len() == b.len(),
        0 <= n <= a.len(),
        forall|i: int| 0 <= i < b.len() ==> rep_stmt(a[i], b[i], vs, k + calls_stmts(a, i).len()),
    ensures
        rep_stmts(a, b, vs, k, n),
    decreases n,
{
    if n > 0 {
        lemma_rep_stmts_all(a, b, vs, k, n - 1);
    }
}

fn rep_stmt_x(s: Stmt, vals: &mut Vec<Option<ExprKind>>, pos: &mut usize, Ghost(vs): Ghost<Seq<Option<ExprKind>>>) -> (r: Stmt)
    requires
        stock(old(vals)@, vs, *old(pos) as int),
        *old(pos) + calls_stmt(s).len() <= vs.len(),
        all_some(vs),
    ensures
        stock(final(vals)@, vs, *final(pos) as int),
        *final(pos) == *old(pos) + calls_stmt(s).len(),
        rep_stmt(s, r, vs, *old(pos) as int),
    decreases s, 0int,
{
    match s {
        Stmt::Let(d) => {
            let LetDecl { mutable, pattern, ty, value, span } = d;
            let v2 = rep_expr_x(value, vals, pos, Ghost(vs));
            Stmt::Let(LetDecl { mutable, pattern, ty, value: v2, span })
        },
        Stmt::Assign { target, value, span } => {
            let t2 = rep_expr_x(target, vals, pos, Ghost(vs));
            let v2 = rep_expr_x(value, vals, pos, Ghost(vs));
            Stmt::Assign { target: t2, value: v2, span }
        },
        Stmt::Expr(x) => Stmt::Expr(rep_expr_x(x, vals, pos, Ghost(vs))),
        Stmt::Return { value, span } => {
            let v2 = match value {
                Some(x) => Some(rep_expr_x(x, vals, pos, Ghost(vs))),
                None => None,
            };
            Stmt::Return { value: v2, span }
        },
        other => other,
    }
}

/// `f2` is `f` but for its body.
pub open spec fn same_but_body(f: FnDecl, f2: FnDecl) -> bool {
    &&& f2.name == f.name
    &&& f2.receiver == f.receiver
    &&& f2.params == f.params
    &&& f2.effects == f.effects
    &&& f2.ret == f.ret
    &&& f2.purity == f.purity
    &&& f2.is_external == f.is_external
    &&& f2.is_export == f.is_export
    &&& f2.span == f.span
}

pub open spec fn rep_item(a: Item, b: Item, vs: Seq<Option<ExprKind>>, k: int) -> bool {
    match a {
        Item::Fn(f) => b matches Item::Fn(f2) && same_but_body(f, f2) && match f.body {
            FnBody::Block(x) => f2.body matches FnBody::Block(y) && rep_block(x, y, vs, k),
            FnBody::Expr(x) => f2.body matches FnBody::Expr(y) && rep_expr(x, y, vs, k),
            FnBody::External => f2.body is External,
        },
        Item::Test(t) => b matches Item::Test(t2) && t2.name == t.name && rep_block(t.body, t2.body, vs, k),
        Item::Type(_) => b == a,
    }
}

pub open spec fn rep_items(a: Seq<Item>, b: Seq<Item>, vs: Seq<Option<ExprKind>>, k: int) -> bool {
    &&& a.len() == b.len()
    &&& forall|i: int| 0 <= i < a.len() ==> rep_item(#[trigger] a[i], b[i], vs, k + calls_items(a, i).len())
}

/// `b` is the module `a` with its intrinsic calls replaced, in walk order,
/// by the values `vs`.
pub open spec fn rep_module(a: Module, b: Module, vs: Seq<Option<ExprKind>>) -> bool {
    &&& b.name == a.name
    &&& rep_items(a.items@, b.items@, vs, 0)
    &&& b.peer_files@.len() == a.peer_files@.len()
    &&& forall|j: int| 0 <= j < a.peer_files@.len() ==> {
        let (p, q) = (#[trigger] a.peer_files@[j], b.peer_files@[j]);
        &&& q.path == p.path
        &&& q.file_id == p.file_id
        &&& q.is_entry_module == p.is_entry_module
        &&& rep_items(p.items_here@, q.items_here@, vs,
            (calls_items(a.items@, a.items@.len() as int).len() + calls_peers(a.peer_files@, j).len()) as int)
    }
}

proof fn lemma_calls_items_mono(v: Seq<Item>, i: int, n: int)
    requires
        0 <= i <= n <= v.len(),
    ensures
        calls_items(v, i).len() <= calls_items(v, n).len(),
    decreases n - i,
{
    if i < n {
        lemma_calls_items_mono(v, i, n - 1);
    }
}

proof fn lemma_calls_peers_mono(v: Seq<PeerFile>, i: int, n: int)
    requires
        0 <= i <= n <= v.len(),
    ensures
        calls_peers(v, i).len() <= calls_peers(v, n).len(),
    decreases n - i,
{
    if i < n {
        lemma_calls_peers_mono(v, i, n - 1);
    }
}

fn rep_items_x(v: Vec<Item>, vals: &mut Vec<Option<ExprKind>>, pos: &mut usize, Ghost(vs): Ghost<Seq<Option<ExprKind>>>) -> (r: Vec<Item>)
    requires
        stock(old(vals)@, vs, *old(pos) as int),
        *old(pos) + calls_items(v@, v@.len() as int).len() <= vs.len(),
        all_some(vs),
    ensures
        stock(final(vals)@, vs, *final(pos) as int),
        *final(pos) == *old(pos) + calls_items(v@, v@.len() as int).len(),
        rep_items(v@, r@, vs, *old(pos) as int),
{
    let ghost orig = v@;
    let ghost p0 = *pos as int;
    let mut rest = v;
    let mut out: Vec<Item> = Vec::new();
    while rest.len() > 0
        invariant
            out@.len() + rest@.len() == orig.len(),
            rest@ == orig.subrange(out@.len() as int, orig.len() as int),
            stock(vals@, vs, *pos as int),
            all_some(vs),
            *pos == p0 + calls_items(orig, out@.len() as int).len(),
            p0 + calls_items(orig, orig.len() as int).len() <= vs.len(),
            forall|i: int| 0 <= i < out@.len() ==> rep_item(orig[i], out@[i], vs, p0 + calls_items(orig, i).len()),
        decreases rest@.len(),
    {
        let ghost i = out@.len() as int;
        let x = rest.remove(0);
        proof {
            assert(x == orig[i]);
            lemma_calls_items_mono(orig, i + 1, orig.len() as int);
        }
        let y = match x {
            Item::Fn(f) => {
                let FnDecl { name, receiver, params, effects, ret, body, purity, is_external, is_export, span } = f;
                let b2 = match body {
                    FnBody::Block(b) => FnBody::Block(rep_block_x(b, vals, pos, Ghost(vs))),
                    FnBody::Expr(e) => FnBody::Expr(rep_expr_x(e, vals, pos, Ghost(vs))),
                    FnBody::External => FnBody::External,
                };
                Item::Fn(FnDecl { name, receiver, params, effects, ret, body: b2, purity, is_external, is_export, span })
            },
            Item::Test(t) => {
                let TestDecl { name, body } = t;
                Item::Test(TestDecl { name, body: rep_block_x(body, vals, pos, Ghost(vs)) })
            },
            Item::Type(t) => Item::Type(t),
        };
        let ghost o0 = out@;
        out.push(y);
        proof {
            assert(rest@ =~= orig.subrange(out@.len() as int, orig.len() as int));
            assert forall|q: int| 0 <= q < out@.len() implies rep_item(orig[q], out@[q], vs, p0 + calls_items(orig, q).len()) by {
                if q < i {
                    assert(out@[q] == o0[q]);
                }
            }
        }
    }
    out
}

/// Replaces the intrinsic calls of `m`, in walk order, by the values in
/// `vals` (all of them present).
fn rep_module_x(m: &mut Module, vals: &mut Vec<Option<ExprKind>>, Ghost(vs): Ghost<Seq<Option<ExprKind>>>)
    requires
        old(vals)@ == vs,
        module_calls(*old(m)).len() <= vs.len(),
        all_some(vs),
    ensures
        rep_module(*old(m), *final(m), vs),
{
    let ghost m0 = *m;
    let mut pos: usize = 0;
    let mut items: Vec<Item> = Vec::new();
    std::mem::swap(&mut items, &mut m.items);
    let items2 = rep_items_x(items, vals, &mut pos, Ghost(vs));
    m.items = items2;
    let ghost base: int = calls_items(m0.items@, m0.items@.len() as int).len() as int;
    let mut peers: Vec<PeerFile> = Vec::new();
    std::mem::swap(&mut peers, &mut m.peer_files);
    let ghost orig = peers@;
    let mut rest = peers;
    let mut out: Vec<PeerFile> = Vec::new();
    while rest.len() > 0
        invariant
            orig == m0.peer_files@,
            out@.len() + rest@.len() == orig.len(),
            rest@ == orig.subrange(out@.len() as int, orig.len() as int),
            stock(vals@, vs, pos as int),
            all_some(vs),
            pos == base + calls_peers(orig, out@.len() as int).len(),
            base + calls_peers(orig, orig.len() as int).len() <= vs.len(),
            forall|j: int| 0 <= j < out@.len() ==> {
                let (p, q) = (#[trigger] orig[j], out@[j]);
                &&& q.path == p.path
                &&& q.file_id == p.file_id
                &&& q.is_entry_module == p.is_entry_module
                &&& rep_items(p.items_here@, q.items_here@, vs, base + calls_peers(orig, j).len())
            },
        decreases rest@.len(),
    {
        let ghost j = out@.len() as int;
        let x = rest.remove(0);
        proof {
            assert(x == orig[j]);
            lemma_calls_peers_mono(orig, j + 1, orig.len() as int);
        }
        let PeerFile { path, file_id, items_here, is_entry_module } = x;
        let items_here2 = rep_items_x(items_here, vals, &mut pos, Ghost(vs));
        let ghost o0 = out@;
        out.push(PeerFile { path, file_id, items_here: items_here2, is_entry_module });
        proof {
            assert(rest@ =~= orig.subrange(out@.len() as int, orig.len() as int));
            assert forall|q: int| 0 <= q < j implies out@[q] == o0[q] by {}
        }
    }
    m.peer_files = out;
}

/// The answer fits the request.
pub open spec fn fits(req: EmbedRequest, a: EmbedAnswer) -> bool {
    match kind_view(req.kind) {
        KindView::File => fits_file(false, a),
        KindView::Text => fits_file(true, a),
        KindView::Dir { .. } => a is Dir || a is NotFound || a is NotADir || a is Outside,
    }
}

/// What an answer gives for its request: the embedded files and the
/// warnings, or a diagnostic message.
pub open spec fn outcome(req: EmbedRequest, a: EmbedAnswer) -> Result<(Seq<Seq<char>>, Seq<(Seq<char>, Seq<char>)>), Seq<char>> {
    match kind_view(req.kind) {
        KindView::File => match file_outcome(false, req.rel@, a) {
            Ok((_, f)) => Ok((seq![f], Seq::empty())),
            Err(m) => Err(m),
        },
        KindView::Text => match file_outcome(true, req.rel@, a) {
            Ok((_, f)) => Ok((seq![f], Seq::empty())),
            Err(m) => Err(m),
        },
        KindView::Dir { glob, .. } => match a {
            EmbedAnswer::Dir { root, entries, symlinks, non_ascii } => dir_outcome(req.rel@, glob, root@, entries@, symlinks@, non_ascii@),
            EmbedAnswer::NotFound { base } => Err(dir_not_found_message(req.rel@, base@)),
            EmbedAnswer::NotADir { path } => Err(not_a_dir_message(path@)),
            EmbedAnswer::Outside { path, root } => Err(outside_dir_message(path@, root@)),
            _ => Err(Seq::empty()),
        },
    }
}

/// `k` is the value an answer gives for its request.
pub open spec fn value_ok(req: EmbedRequest, a: EmbedAnswer, k: ExprKind) -> bool {
    match kind_view(req.kind) {
        KindView::File => match file_outcome(false, req.rel@, a) {
            Ok((ValueView::Bytes(b), _)) => k matches ExprKind::HexBlobLit(x) && x@ == b,
            _ => true,
        },
        KindView::Text => match file_outcome(true, req.rel@, a) {
            Ok((ValueView::Text(t), _)) => k matches ExprKind::StrLit(x) && x@ == t,
            _ => true,
        },
        KindView::Dir { glob, .. } => match a {
            EmbedAnswer::Dir { entries, .. } => outcome(req, a) is Ok ==> exists|pairs: Seq<(Seq<char>, Seq<u8>)>|
                dir_pairs_ok(pairs, kept(entries@, glob, entries@.len() as int)) && #[trigger] dir_value_is(k, req.span, pairs),
            _ => true,
        },
    }
}

/// The value, files and warnings an answer gives, or its diagnostic.
pub fn resolve_answer(req: &EmbedRequest, a: EmbedAnswer) -> (r: Result<(ExprKind, Vec<String>, Vec<EmbedWarning>), EmbedDiag>)
    requires
        fits(*req, a),
    ensures
        match outcome(*req, a) {
            Ok((fs, ws)) => (r matches Ok((k, f, w)) && names_view(f@) == fs && warnings_view(w@) == ws
                && value_ok(*req, a, k) && forall|i: int| 0 <= i < w@.len() ==> (#[trigger] w@[i]).span == req.span),
            Err(m) => (r matches Err(d) && d.message@ == m && d.span == req.span),
        },
{
    let span = req.span;
    match &req.kind {
        EmbedKind::File | EmbedKind::Text => {
            let text = match &req.kind {
                EmbedKind::Text => true,
                _ => false,
            };
            match file_answer(text, req.rel.as_str(), a) {
                Ok((k, f)) => {
                    let fs = vec![f];
                    proof { assert(names_view(fs@) =~= seq![fs@[0]@]); }
                    let ws: Vec<EmbedWarning> = Vec::new();
                    proof { assert(warnings_view(ws@) =~= Seq::<(Seq<char>, Seq<char>)>::empty()); }
                    Ok((k, fs, ws))
                },
                Err(m) => Err(EmbedDiag { message: m, span }),
            }
        },
        EmbedKind::Dir { glob, .. } => {
            match a {
                EmbedAnswer::Dir { root, entries, symlinks, non_ascii } => {
                    match dir_answer(req.rel.as_str(), glob, root.as_str(), &entries, &symlinks, &non_ascii, span) {
                        Ok((k, fs, ws)) => Ok((k, fs, ws)),
                        Err(m) => Err(EmbedDiag { message: m, span }),
                    }
                },
                EmbedAnswer::NotFound { base } => Err(EmbedDiag {
                    message: cat5("[E_EMBED_DIR_NOT_FOUND] embedded directory not found: `", req.rel.as_str(), "` (resolved relative to `", base.as_str(), "`)"),
                    span,
                }),
                EmbedAnswer::NotADir { path } => Err(EmbedDiag {
                    message: cat3("[E_EMBED_NOT_A_DIR] `", path.as_str(), "` is a file, not a directory — use `embed(...)` instead of `embed_dir(...)` (D412-amendment, Plan 210)"),
                    span,
                }),
                EmbedAnswer::Outside { path, root } => Err(EmbedDiag {
                    message: cat5("[E_EMBED_OUTSIDE_PROJECT] embedded directory `", path.as_str(), "` escapes the project root `", root.as_str(), "` — paths above the project tree are forbidden (D412-amendment, Plan 210)"),
                    span,
                }),
                _ => {
                    proof { assert(false); }
                    Err(EmbedDiag { message: String::new(), span })
                },
            }
        },
    }
}

/// The diagnostics of the first `n` answers, in order.
pub open spec fn answer_errors(reqs: Seq<EmbedRequest>, ans: Seq<EmbedAnswer>, n: int) -> Seq<(Seq<char>, Span)>
    decreases n,
{
    if n <= 0 {
        Seq::empty()
    } else {
        let p = answer_errors(reqs, ans, n - 1);
        match outcome(reqs[n - 1], ans[n - 1]) {
            Err(m) => p.push((m, reqs[n - 1].span)),
            Ok(_) => p,
        }
    }
}

/// The embedded files of the first `n` answers, in order.
pub open spec fn answer_files(reqs: Seq<EmbedRequest>, ans: Seq<EmbedAnswer>, n: int) -> Seq<Seq<char>>
    decreases n,
{
    if n <= 0 {
        Seq::empty()
    } else {
        answer_files(reqs, ans, n - 1) + match outcome(reqs[n - 1], ans[n - 1]) {
            Ok((fs, _)) => fs,
            Err(_) => Seq::empty(),
        }
    }
}

/// The warnings of the first `n` answers, in order.
pub open spec fn answer_warnings(reqs: Seq<EmbedRequest>, ans: Seq<EmbedAnswer>, n: int) -> Seq<(Seq<char>, Seq<char>)>
    decreases n,
{
    if n <= 0 {
        Seq::empty()
    } else {
        answer_warnings(reqs, ans, n - 1) + match outcome(reqs[n - 1], ans[n - 1]) {
            Ok((_, ws)) => ws,
            Err(_) => Seq::empty(),
        }
    }
}

/// Resolves the requests of `module` (as `embed_requests` gave them) with
/// the host's answers, one for one. When some answer is a diagnostic, the
/// diagnostics come back, each (message, span) once, and the module is
/// left alone. Otherwise every intrinsic call is replaced by its value, and
/// the embedded files come back once each in increasing order, with the
/// warnings in order.
#[verifier::rlimit(50)]
pub fn apply_embeds(module: &mut Module, reqs: &Vec<EmbedRequest>, answers: Vec<EmbedAnswer>)
    -> (r: Result<(Vec<String>, Vec<EmbedWarning>), Vec<EmbedDiag>>)
    requires
        requests_of(reqs@, module_calls(*old(module))),
        answers@.len() == reqs@.len(),
        forall|i: int| 0 <= i < reqs@.len() ==> fits(#[trigger] reqs@[i], answers@[i]),
    ensures
        match r {
            Err(ds) => answer_errors(reqs@, answers@, reqs@.len() as int).len() > 0
                && diags_view(ds@) == dedup_diags(answer_errors(reqs@, answers@, reqs@.len() as int))
                && *final(module) == *old(module),
            Ok((files, ws)) => answer_errors(reqs@, answers@, reqs@.len() as int).len() == 0
                && increasing(names_view(files@), name_lt())
                && (forall|f: Seq<char>| #[trigger] names_view(files@).contains(f)
                    <==> answer_files(reqs@, answers@, reqs@.len() as int).contains(f))
                && warnings_view(ws@) == answer_warnings(reqs@, answers@, reqs@.len() as int)
                && exists|vs: Seq<Option<ExprKind>>| vs.len() == reqs@.len()
                    && (forall|i: int| 0 <= i < vs.len() ==> (#[trigger] vs[i] matches Some(k) && value_ok(reqs@[i], answers@[i], k)))
                    && rep_module(*old(module), *final(module), vs),
        },
{
    let ghost ans0 = answers@;
    let ghost rq = reqs@;
    let n = reqs.len();
    let mut rest = answers;
    let mut vals: Vec<Option<ExprKind>> = Vec::new();
    let mut files: Vec<String> = Vec::new();
    let mut ws: Vec<EmbedWarning> = Vec::new();
    let mut diags: Vec<EmbedDiag> = Vec::new();
    let mut i: usize = 0;
    assert(names_view(files@) =~= Seq::<Seq<char>>::empty());
    assert(warnings_view(ws@) =~= Seq::<(Seq<char>, Seq<char>)>::empty());
    assert(diags_view(diags@) =~= Seq::<(Seq<char>, Span)>::empty());
    while i < n
        invariant
            n == rq.len(),
            rq == reqs@,
            ans0.len() == n,
            i <= n,
            rest@ == ans0.subrange(i as int, n as int),
            forall|q: int| 0 <= q < n ==> fits(#[trigger] rq[q], ans0[q]),
            vals@.len() == i,
            forall|q: int| 0 <= q < i ==> (#[trigger] vals@[q] matches Some(k) && value_ok(rq[q], ans0[q], k)),
            increasing(names_view(files@), name_lt()),
            forall|f: Seq<char>| #[trigger] names_view(files@).contains(f) <==> answer_files(rq, ans0, i as int).contains(f),
            warnings_view(ws@) == answer_warnings(rq, ans0, i as int),
            diags_view(diags@) == dedup_diags(answer_errors(rq, ans0, i as int)),
        decreases n - i,
    {
        let a = rest.remove(0);
        assert(a == ans0[i as int]);
        let ghost e0 = answer_errors(rq, ans0, i as int);
        let ghost f0 = answer_files(rq, ans0, i as int);
        let ghost w0 = answer_warnings(rq, ans0, i as int);
        match resolve_answer(&reqs[i], a) {
            Ok((k, fs, w)) => {
                proof {
                    assert(answer_errors(rq, ans0, i as int + 1) == e0);
                    assert(answer_files(rq, ans0, i as int + 1) == f0 + names_view(fs@));
                    assert(answer_warnings(rq, ans0, i as int + 1) == w0 + warnings_view(w@));
                }
                let mut t: usize = 0;
                while t < fs.len()
                    invariant
                        t <= fs@.len(),
                        increasing(names_view(files@), name_lt()),
                        forall|f: Seq<char>| #[trigger] names_view(files@).contains(f) <==> f0.contains(f) || names_view(fs@).take(t as int).contains(f),
                    decreases fs@.len() - t,
                {
                    insert_name(&mut files, fs[t].as_str());
                    proof {
                        let t0 = names_view(fs@).take(t as int);
                        let t1 = names_view(fs@).take(t as int + 1);
                        assert(t1 =~= t0.push(fs@[t as int]@));
                        crate::field_cache::scc::lemma_push_contains(t0, fs@[t as int]@);
                    }
                    t = t + 1;
                }
                proof {
                    assert(names_view(fs@).take(fs@.len() as int) =~= names_view(fs@));
                    assert forall|f: Seq<char>| #[trigger] names_view(files@).contains(f) <==> (f0 + names_view(fs@)).contains(f) by {
                        if (f0 + names_view(fs@)).contains(f) {
                            let q = choose|q: int| 0 <= q < (f0 + names_view(fs@)).len() && (f0 + names_view(fs@))[q] == f;
                            if q < f0.len() {
                                assert(f0[q] == f);
                            } else {
                                assert(names_view(fs@)[q - f0.len()] == f);
                            }
                        }
                        if f0.contains(f) {
                            let q = choose|q: int| 0 <= q < f0.len() && f0[q] == f;
                            assert((f0 + names_view(fs@))[q] == f);
                        }
                        if names_view(fs@).contains(f) {
                            let q = choose|q: int| 0 <= q < names_view(fs@).len() && names_view(fs@)[q] == f;
                            assert((f0 + names_view(fs@))[f0.len() + q] == f);
                        }
                    }
                }
                let mut u: usize = 0;
                let ghost wv0 = warnings_view(ws@);
                while u < w.len()
                    invariant
                        u <= w@.len(),
                        warnings_view(ws@) == wv0 + warnings_view(w@).take(u as int),
                    decreases w@.len() - u,
                {
                    let ghost before = warnings_view(ws@);
                    let wu = &w[u];
                    ws.push(EmbedWarning { rule: copy_str(wu.rule.as_str()), message: copy_str(wu.message.as_str()), span: wu.span });
                    proof {
                        assert(warnings_view(ws@) =~= before.push((w@[u as int].rule@, w@[u as int].message@)));
                        assert(warnings_view(w@).take(u as int + 1) =~= warnings_view(w@).take(u as int).push((w@[u as int].rule@, w@[u as int].message@)));
                    }
                    u = u + 1;
                }
                assert(warnings_view(w@).take(w@.len() as int) =~= warnings_view(w@));
                let ghost v0 = vals@;
                vals.push(Some(k));
                proof {
                    assert forall|q: int| 0 <= q < i + 1 implies (#[trigger] vals@[q] matches Some(kk) && value_ok(rq[q], ans0[q], kk)) by {
                        if q < i {
                            assert(vals@[q] == v0[q]);
                        }
                    }
                }
            },
            Err(d) => {
                proof {
                    let x = diag_view(d);
                    assert(answer_errors(rq, ans0, i as int + 1) == e0.push(x));
                    assert(e0.push(x).drop_last() =~= e0);
                    assert(answer_files(rq, ans0, i as int + 1) =~= f0);
                    assert(answer_warnings(rq, ans0, i as int + 1) =~= w0);
                }
                push_diag(&mut diags, d);
                let ghost v0 = vals@;
                vals.push(Some(ExprKind::UnitLit));
                proof {
                    assert forall|q: int| 0 <= q < i + 1 implies (#[trigger] vals@[q] matches Some(kk) && value_ok(rq[q], ans0[q], kk)) by {
                        if q < i {
                            assert(vals@[q] == v0[q]);
                        }
                    }
                }
            },
        }
        i = i + 1;
        proof {
            assert(rest@ =~= ans0.subrange(i as int, n as int));
        }
    }
    if diags.len() > 0 {
        proof {
            if answer_errors(rq, ans0, n as int).len() == 0 {
                lemma_dedup_empty(answer_errors(rq, ans0, n as int));
            }
        }
        return Err(diags);
    }
    proof {
        lemma_dedup_empty(answer_errors(rq, ans0, n as int));
        assert forall|j: int| 0 <= j < vals@.len() implies (#[trigger] vals@[j]) is Some by {
            assert(vals@[j] matches Some(kk) && value_ok(rq[j], ans0[j], kk));
        }
    }
    let ghost vs = vals@;
    rep_module_x(module, &mut vals, Ghost(vs));
    Ok((files, ws))
}

} // verus!

verus! {

/// `x` is an intrinsic call met in `e`: `e` itself when it is one, or one
/// met in a part of `e` (the arguments of an intrinsic call belong to it).
pub open spec fn call_in_expr(x: Expr, e: Expr) -> bool
    decreases e, 0int,
{
    if intrinsic_of(e) is Some {
        x == e
    } else {
        match e.kind {
            ExprKind::Member { obj, .. } => call_in_expr(x, *obj),
            ExprKind::Call { func, args } => call_in_expr(x, *func) || call_in_list(x, args, args.len() as int),
            ExprKind::Binary { left, right, .. } => call_in_expr(x, *left) || call_in_expr(x, *right),
            ExprKind::Unary { operand, .. } => call_in_expr(x, *operand),
            ExprKind::Index { obj, index } => call_in_expr(x, *obj) || call_in_expr(x, *index),
            ExprKind::If { cond, then, else_ } => call_in_expr(x, *cond) || call_in_block(x, then) || call_in_else(x, else_),
            ExprKind::IfLet { scrutinee, then, else_, .. } => call_in_expr(x, *scrutinee) || call_in_block(x, then) || call_in_else(x, else_),
            ExprKind::While { cond, body } => call_in_expr(x, *cond) || call_in_block(x, body),
            ExprKind::WhileLet { scrutinee, body, .. } => call_in_expr(x, *scrutinee) || call_in_block(x, body),
            ExprKind::For { iter, body, .. } => call_in_expr(x, *iter) || call_in_block(x, body),
            ExprKind::ParallelFor { iter, body, .. } => call_in_expr(x, *iter) || call_in_block(x, body),
            ExprKind::Match { scrutinee, arms } => call_in_expr(x, *scrutinee) || call_in_arms(x, arms, arms.len() as int),
            ExprKind::Block(b) => call_in_block(x, b),
            ExprKind::Lambda { body, .. } => call_in_expr(x, *body),
            ExprKind::Spawn(y) => call_in_expr(x, *y),
            ExprKind::Try(y) => call_in_expr(x, *y),
            ExprKind::NamedArg { value, .. } => call_in_expr(x, *value),
            ExprKind::TupleLit(items) => call_in_list(x, items, items.len() as int),
            ExprKind::ArrayLit(items) => call_in_list(x, items, items.len() as int),
            ExprKind::RecordLit { fields, .. } => call_in_field_values(x, fields, fields.len() as int),
            _ => false,
        }
    }
}

pub open spec fn call_in_else(x: Expr, e: Option<ElseBranch>) -> bool
    decreases e,
{
    match e {
        Some(ElseBranch::Block(b)) => call_in_block(x, b),
        Some(ElseBranch::If(y)) => call_in_expr(x, *y),
        None => false,
    }
}

/// `x` is met in one of the first `k` expressions of `v`.
pub open spec fn call_in_list(x: Expr, v: Vec<Expr>, k: int) -> bool
    decreases v, k,
{
    if k <= 0 || k > v.len() { false } else { call_in_list(x, v, k - 1) || call_in_expr(x, v[k - 1]) }
}

pub open spec fn call_in_field_values(x: Expr, v: Vec<RecordLitField>, k: int) -> bool
    decreases v, k,
{
    if k <= 0 || k > v.len() {
        false
    } else {
        call_in_field_values(x, v, k - 1) || match v[k - 1].value {
            Some(y) => call_in_expr(x, y),
            None => false,
        }
    }
}

pub open spec fn call_in_arms(x: Expr, v: Vec<MatchArm>, k: int) -> bool
    decreases v, k,
{
    if k <= 0 || k > v.len() {
        false
    } else {
        call_in_arms(x, v, k - 1) || match v[k - 1].body {
            MatchArmBody::Expr(y) => call_in_expr(x, y),
            MatchArmBody::Block(b) => call_in_block(x, b),
        }
    }
}

/// `x` is met in a statement of `b` or in its final value.
pub open spec fn call_in_block(x: Expr, b: Block) -> bool
    decreases b, 1int,
{
    call_in_stmt_list(x, b.stmts, b.stmts.len() as int) || match b.trailing {
        Some(y) => call_in_expr(x, *y),
        None => false,
    }
}

pub open spec fn call_in_stmt_list(x: Expr, v: Vec<Stmt>, k: int) -> bool
    decreases v, k,
{
    if k <= 0 || k > v.len() { false } else { call_in_stmt_list(x, v, k - 1) || call_in_stmt(x, v[k - 1]) }
}

/// `x` is met in the value of a `let`, either side of an assignment, an
/// expression statement or a returned value.
pub open spec fn call_in_stmt(x: Expr, s: Stmt) -> bool
    decreases s, 0int,
{
    match s {
        Stmt::Let(d) => call_in_expr(x, d.value),
        Stmt::Assign { target, value, .. } => call_in_expr(x, target) || call_in_expr(x, value),
        Stmt::Expr(y) => call_in_expr(x, y),
        Stmt::Return { value: Some(y), .. } => call_in_expr(x, y),
        _ => false,
    }
}

/// `x` is met in the body of a function or test item.
pub open spec fn call_in_item(x: Expr, it: Item) -> bool {
    match it {
        Item::Fn(f) => match f.body {
            FnBody::Block(b) => call_in_block(x, b),
            FnBody::Expr(y) => call_in_expr(x, y),
            FnBody::External => false,
        },
        Item::Test(t) => call_in_block(x, t.body),
        Item::Type(_) => false,
    }
}

/// `x` is met in an item of the module or of one of its peer files.
pub open spec fn call_in_module(x: Expr, m: Module) -> bool {
    ||| exists|i: int| 0 <= i < m.items@.len() && call_in_item(x, #[trigger] m.items@[i])
    ||| exists|j: int, i: int| 0 <= j < m.peer_files@.len() && 0 <= i < m.peer_files@[j].items_here@.len()
        && call_in_item(x, #[trigger] m.peer_files@[j].items_here@[i])
}

proof fn lemma_contains_left(a: Seq<Expr>, b: Seq<Expr>, x: Expr)
    requires
        a.contains(x),
    ensures
        (a + b).contains(x),
{
    let i = choose|i: int| 0 <= i < a.len() && a[i] == x;
    assert((a + b)[i] == x);
}

proof fn lemma_contains_right(a: Seq<Expr>, b: Seq<Expr>, x: Expr)
    requires
        b.contains(x),
    ensures
        (a + b).contains(x),
{
    let i = choose|i: int| 0 <= i < b.len() && b[i] == x;
    assert((a + b)[a.len() + i] == x);
}

proof fn lemma_call_found_expr(x: Expr, e: Expr)
    requires
        call_in_expr(x, e),
    ensures
        calls_expr(e).contains(x),
    decreases e, 0int,
{
    if intrinsic_of(e) is Some {
        assert(calls_expr(e)[0] == e);
    } else {
        match e.kind {
            ExprKind::Member { obj, .. } => lemma_call_found_expr(x, *obj),
            ExprKind::Call { func, args } => {
                if call_in_expr(x, *func) {
                    lemma_call_found_expr(x, *func);
                    lemma_contains_left(calls_expr(*func), calls_exprs(args, args.len() as int), x);
                } else {
                    lemma_call_found_list(x, args, args.len() as int);
                    lemma_contains_right(calls_expr(*func), calls_exprs(args, args.len() as int), x);
                }
            },
            ExprKind::Binary { left, right, .. } => {
                if call_in_expr(x, *left) {
                    lemma_call_found_expr(x, *left);
                    lemma_contains_left(calls_expr(*left), calls_expr(*right), x);
                } else {
                    lemma_call_found_expr(x, *right);
                    lemma_contains_right(calls_expr(*left), calls_expr(*right), x);
                }
            },
            ExprKind::Unary { operand, .. } => lemma_call_found_expr(x, *operand),
            ExprKind::Index { obj, index } => {
                if call_in_expr(x, *obj) {
                    lemma_call_found_expr(x, *obj);
                    lemma_contains_left(calls_expr(*obj), calls_expr(*index), x);
                } else {
                    lemma_call_found_expr(x, *index);
                    lemma_contains_right(calls_expr(*obj), calls_expr(*index), x);
                }
            },
            ExprKind::If { cond, then, else_ } => {
                let c = calls_expr(*cond);
                let t = calls_block(then);
                let el = match else_ {
                    Some(ElseBranch::Block(b)) => calls_block(b),
                    Some(ElseBranch::If(y)) => calls_expr(*y),
                    None => Seq::<Expr>::empty(),
                };
                if call_in_expr(x, *cond) {
                    lemma_call_found_expr(x, *cond);
                    lemma_contains_left(c, t, x);
                    lemma_contains_left(c + t, el, x);
                } else if call_in_block(x, then) {
                    lemma_call_found_block(x, then);
                    lemma_contains_right(c, t, x);
                    lemma_contains_left(c + t, el, x);
                } else {
                    assert(call_in_else(x, else_));
                    match else_ {
                        Some(ElseBranch::Block(b)) => lemma_call_found_block(x, b),
                        Some(ElseBranch::If(y)) => lemma_call_found_expr(x, *y),
                        None => {},
                    }
                    lemma_contains_right(c + t, el, x);
                }
            },
            ExprKind::IfLet { scrutinee, then, else_, .. } => {
                let c = calls_expr(*scrutinee);
                let t = calls_block(then);
                let el = match else_ {
                    Some(ElseBranch::Block(b)) => calls_block(b),
                    Some(ElseBranch::If(y)) => calls_expr(*y),
                    None => Seq::<Expr>::empty(),
                };
                if call_in_expr(x, *scrutinee) {
                    lemma_call_found_expr(x, *scrutinee);
                    lemma_contains_left(c, t, x);
                    lemma_contains_left(c + t, el, x);
                } else if call_in_block(x, then) {
                    lemma_call_found_block(x, then);
                    lemma_contains_right(c, t, x);
                    lemma_contains_left(c + t, el, x);
                } else {
                    assert(call_in_else(x, else_));
                    match else_ {
                        Some(ElseBranch::Block(b)) => lemma_call_found_block(x, b),
                        Some(ElseBranch::If(y)) => lemma_call_found_expr(x, *y),
                        None => {},
                    }
                    lemma_contains_right(c + t, el, x);
                }
            },
            ExprKind::While { cond, body } => {
                if call_in_expr(x, *cond) {
                    lemma_call_found_expr(x, *cond);
                    lemma_contains_left(calls_expr(*cond), calls_block(body), x);
                } else {
                    lemma_call_found_block(x, body);
                    lemma_contains_right(calls_expr(*cond), calls_block(body), x);
                }
            },
            ExprKind::WhileLet { scrutinee, body, .. } => {
                if call_in_expr(x, *scrutinee) {
                    lemma_call_found_expr(x, *scrutinee);
                    lemma_contains_left(calls_expr(*scrutinee), calls_block(body), x);
                } else {
                    lemma_call_found_block(x, body);
                    lemma_contains_right(calls_expr(*scrutinee), calls_block(body), x);
                }
            },
            ExprKind::For { iter, body, .. } => {
                if call_in_expr(x, *iter) {
                    lemma_call_found_expr(x, *iter);
                    lemma_contains_left(calls_expr(*iter), calls_block(body), x);
                } else {
                    lemma_call_found_block(x, body);
                    lemma_contains_right(calls_expr(*iter), calls_block(body), x);
                }
            },
            ExprKind::ParallelFor { iter, body, .. } => {
                if call_in_expr(x, *iter) {
                    lemma_call_found_expr(x, *iter);
                    lemma_contains_left(calls_expr(*iter), calls_block(body), x);
                } else {
                    lemma_call_found_block(x, body);
                    lemma_contains_right(calls_expr(*iter), calls_block(body), x);
                }
            },
            ExprKind::Match { scrutinee, arms } => {
                if call_in_expr(x, *scrutinee) {
                    lemma_call_found_expr(x, *scrutinee);
                    lemma_contains_left(calls_expr(*scrutinee), calls_arms(arms, arms.len() as int), x);
                } else {
                    lemma_call_found_arms(x, arms, arms.len() as int);
                    lemma_contains_right(calls_expr(*scrutinee), calls_arms(arms, arms.len() as int), x);
                }
            },
            ExprKind::Block(b) => lemma_call_found_block(x, b),
            ExprKind::Lambda { body, .. } => lemma_call_found_expr(x, *body),
            ExprKind::Spawn(y) => lemma_call_found_expr(x, *y),
            ExprKind::Try(y) => lemma_call_found_expr(x, *y),
            ExprKind::NamedArg { value, .. } => lemma_call_found_expr(x, *value),
            ExprKind::TupleLit(items) => lemma_call_found_list(x, items, items.len() as int),
            ExprKind::ArrayLit(items) => lemma_call_found_list(x, items, items.len() as int),
            ExprKind::RecordLit { fields, .. } => lemma_call_found_fields(x, fields, fields.len() as int),
            _ => {},
        }
    }
}


proof fn lemma_call_found_list(x: Expr, v: Vec<Expr>, k: int)
    requires
        call_in_list(x, v, k),
    ensures
        calls_exprs(v, k).contains(x),
    decreases v, k,
{
    if 0 < k <= v.len() {
        if call_in_list(x, v, k - 1) {
            lemma_call_found_list(x, v, k - 1);
            lemma_contains_left(calls_exprs(v, k - 1), calls_expr(v[k - 1]), x);
        } else {
            lemma_call_found_expr(x, v[k - 1]);
            lemma_contains_right(calls_exprs(v, k - 1), calls_expr(v[k - 1]), x);
        }
    }
}

proof fn lemma_call_found_fields(x: Expr, v: Vec<RecordLitField>, k: int)
    requires
        call_in_field_values(x, v, k),
    ensures
        calls_fields(v, k).contains(x),
    decreases v, k,
{
    if 0 < k <= v.len() {
        let last = match v[k - 1].value {
            Some(y) => calls_expr(y),
            None => Seq::<Expr>::empty(),
        };
        if call_in_field_values(x, v, k - 1) {
            lemma_call_found_fields(x, v, k - 1);
            lemma_contains_left(calls_fields(v, k - 1), last, x);
        } else {
            match v[k - 1].value {
                Some(y) => lemma_call_found_expr(x, y),
                None => {},
            }
            lemma_contains_right(calls_fields(v, k - 1), last, x);
        }
    }
}

proof fn lemma_call_found_arms(x: Expr, v: Vec<MatchArm>, k: int)
    requires
        call_in_arms(x, v, k),
    ensures
        calls_arms(v, k).contains(x),
    decreases v, k,
{
    if 0 < k <= v.len() {
        let last = match v[k - 1].body {
            MatchArmBody::Expr(y) => calls_expr(y),
            MatchArmBody::Block(b) => calls_block(b),
        };
        if call_in_arms(x, v, k - 1) {
            lemma_call_found_arms(x, v, k - 1);
            lemma_contains_left(calls_arms(v, k - 1), last, x);
        } else {
            match v[k - 1].body {
                MatchArmBody::Expr(y) => lemma_call_found_expr(x, y),
                MatchArmBody::Block(b) => lemma_call_found_block(x, b),
            }
            lemma_contains_right(calls_arms(v, k - 1), last, x);
        }
    }
}

proof fn lemma_call_found_block(x: Expr, b: Block)
    requires
        call_in_block(x, b),
    ensures
        calls_block(b).contains(x),
    decreases b, 1int,
{
    let last = match b.trailing {
        Some(y) => calls_expr(*y),
        None => Seq::<Expr>::empty(),
    };
    if call_in_stmt_list(x, b.stmts, b.stmts.len() as int) {
        lemma_call_found_stmts(x, b.stmts, b.stmts.len() as int);
        lemma_contains_left(calls_stmts(b.stmts, b.stmts.len() as int), last, x);
    } else {
        match b.trailing {
            Some(y) => lemma_call_found_expr(x, *y),
            None => {},
        }
        lemma_contains_right(calls_stmts(b.stmts, b.stmts.len() as int), last, x);
    }
}

proof fn lemma_call_found_stmts(x: Expr, v: Vec<Stmt>, k: int)
    requires
        call_in_stmt_list(x, v, k),
    ensures
        calls_stmts(v, k).contains(x),
    decreases v, k,
{
    if 0 < k <= v.len() {
        if call_in_stmt_list(x, v, k - 1) {
            lemma_call_found_stmts(x, v, k - 1);
            lemma_contains_left(calls_stmts(v, k - 1), calls_stmt(v[k - 1]), x);
        } else {
            lemma_call_found_stmt(x, v[k - 1]);
            lemma_contains_right(calls_stmts(v, k - 1), calls_stmt(v[k - 1]), x);
        }
    }
}

proof fn lemma_call_found_stmt(x: Expr, s: Stmt)
    requires
        call_in_stmt(x, s),
    ensures
        calls_stmt(s).contains(x),
    decreases s, 0int,
{
    match s {
        Stmt::Let(d) => lemma_call_found_expr(x, d.value),
        Stmt::Assign { target, value, .. } => {
            if call_in_expr(x, target) {
                lemma_call_found_expr(x, target);
                lemma_contains_left(calls_expr(target), calls_expr(value), x);
            } else {
                lemma_call_found_expr(x, value);
                lemma_contains_right(calls_expr(target), calls_expr(value), x);
            }
        },
        Stmt::Expr(y) => lemma_call_found_expr(x, y),
        Stmt::Return { value: Some(y), .. } => lemma_call_found_expr(x, y),
        _ => {},
    }
}

proof fn lemma_call_found_items(x: Expr, v: Seq<Item>, k: int, i: int)
    requires
        0 <= i < k <= v.len(),
        call_in_item(x, v[i]),
    ensures
        calls_items(v, k).contains(x),
    decreases k,
{
    if i < k - 1 {
        lemma_call_found_items(x, v, k - 1, i);
        lemma_contains_left(calls_items(v, k - 1), calls_item(v[k - 1]), x);
    } else {
        match v[i] {
            Item::Fn(f) => match f.body {
                FnBody::Block(b) => lemma_call_found_block(x, b),
                FnBody::Expr(y) => lemma_call_found_expr(x, y),
                FnBody::External => {},
            },
            Item::Test(t) => lemma_call_found_block(x, t.body),
            Item::Type(_) => {},
        }
        lemma_contains_right(calls_items(v, k - 1), calls_item(v[k - 1]), x);
    }
}

proof fn lemma_call_found_peers(x: Expr, v: Seq<PeerFile>, k: int, j: int, i: int)
    requires
        0 <= j < k <= v.len(),
        0 <= i < v[j].items_here@.len(),
        call_in_item(x, v[j].items_here@[i]),
    ensures
        calls_peers(v, k).contains(x),
    decreases k,
{
    let last = calls_items(v[k - 1].items_here@, v[k - 1].items_here@.len() as int);
    if j < k - 1 {
        lemma_call_found_peers(x, v, k - 1, j, i);
        lemma_contains_left(calls_peers(v, k - 1), last, x);
    } else {
        lemma_call_found_items(x, v[j].items_here@, v[j].items_here@.len() as int, i);
        lemma_contains_right(calls_peers(v, k - 1), last, x);
    }
}

/// Every intrinsic call met anywhere in the module's function and test
/// bodies (the value of a `let`, an assignment, a returned value, a
/// condition, a loop, an argument, ...) is among the calls the pass resolves.
pub proof fn lemma_every_call_is_walked(x: Expr, m: Module)
    requires
        call_in_module(x, m),
    ensures
        module_calls(m).contains(x),
{
    let a = calls_items(m.items@, m.items@.len() as int);
    let b = calls_peers(m.peer_files@, m.peer_files@.len() as int);
    if exists|i: int| 0 <= i < m.items@.len() && call_in_item(x, #[trigger] m.items@[i]) {
        let i = choose|i: int| 0 <= i < m.items@.len() && call_in_item(x, #[trigger] m.items@[i]);
        lemma_call_found_items(x, m.items@, m.items@.len() as int, i);
        lemma_contains_left(a, b, x);
    } else {
        let (j, i) = choose|j: int, i: int| 0 <= j < m.peer_files@.len() && 0 <= i < m.peer_files@[j].items_here@.len()
            && call_in_item(x, #[trigger] m.peer_files@[j].items_here@[i]);
        lemma_call_found_peers(x, m.peer_files@, m.peer_files@.len() as int, j, i);
        lemma_contains_right(a, b, x);
    }
}

/// Every intrinsic call met anywhere in the module gets a request of its
/// own: at its span, in its file, for the path its string-literal argument
/// names (unless a diagnostic is reported instead).
pub proof fn lemma_every_call_is_requested(m: Module, x: Expr, r: Result<Vec<EmbedRequest>, Vec<EmbedDiag>>)
    requires
        requests_ok(m, r),
        call_in_module(x, m),
    ensures
        r matches Ok(reqs) ==> exists|i: int| 0 <= i < reqs@.len() && #[trigger] reqs@[i].span == x.span
            && reqs@[i].file_id == x.span.file_id
            && (x.kind matches ExprKind::Call { args, .. } ==> (args@.len() > 0 ==> (args@[0].kind matches ExprKind::StrLit(p) ==> reqs@[i].rel@ == p@))),
{
    lemma_every_call_is_walked(x, m);
    if let Ok(reqs) = r {
        let cs = module_calls(m);
        let i = choose|i: int| 0 <= i < cs.len() && cs[i] == x;
        assert(request_spec(cs[i]) matches Ok((k, rel)) && request_is(reqs@[i], cs[i], k, rel));
        assert(reqs@[i].span == x.span);
    }
}


/// A replacement value holds no intrinsic call and is not a bare name.
pub open spec fn kind_free(kk: ExprKind) -> bool {
    &&& !(kk is Ident)
    &&& forall|x: Expr, sp: Span| !#[trigger] call_in_expr(x, Expr { kind: kk, span: sp })
}

/// Every value of `vs` is present and free of intrinsic calls.
pub open spec fn free_vals(vs: Seq<Option<ExprKind>>) -> bool {
    forall|j: int| 0 <= j < vs.len() ==> (#[trigger] vs[j]) is Some && kind_free(vs[j].unwrap())
}

proof fn lemma_free_expr(x: Expr, a: Expr, b: Expr, vs: Seq<Option<ExprKind>>, k: int)
    requires
        rep_expr(a, b, vs, k),
        0 <= k,
        k + calls_expr(a).len() <= vs.len(),
        free_vals(vs),
    ensures
        !call_in_expr(x, b),
        intrinsic_of(b) is None,
        b.kind is Ident ==> b == a,
    decreases a, 0int,
{
    if intrinsic_of(a) is Some {
        assert(calls_expr(a).len() == 1);
        assert(vs[k] is Some);
        assert(vs[k] == Some(b.kind));
        assert(kind_free(b.kind));
        assert(b == Expr { kind: b.kind, span: b.span });
        assert(!call_in_expr(x, Expr { kind: b.kind, span: b.span }));
        assert(!call_in_expr(b, Expr { kind: b.kind, span: b.span }));
    } else {
        match a.kind {
            ExprKind::Member { obj, .. } => {
                if let ExprKind::Member { obj: o2, .. } = b.kind {
                    lemma_free_expr(x, *obj, *o2, vs, k);
                }
            },
            ExprKind::Call { func, args } => {
                if let ExprKind::Call { func: f2, args: a2 } = b.kind {
                    lemma_free_expr(x, *func, *f2, vs, k);
                    lemma_free_list(x, args, a2, vs, k + calls_expr(*func).len(), args.len() as int);
                    if f2.kind is Ident {
                        assert(*f2 == *func);
                    }
                    assert(intrinsic_of(b) is None);
                }
            },
            ExprKind::Binary { left, right, .. } => {
                if let ExprKind::Binary { left: l2, right: r2, .. } = b.kind {
                    lemma_free_expr(x, *left, *l2, vs, k);
                    lemma_free_expr(x, *right, *r2, vs, k + calls_expr(*left).len());
                }
            },
            ExprKind::Unary { operand, .. } => {
                if let ExprKind::Unary { operand: x2, .. } = b.kind {
                    lemma_free_expr(x, *operand, *x2, vs, k);
                }
            },
            ExprKind::Index { obj, index } => {
                if let ExprKind::Index { obj: o2, index: i2 } = b.kind {
                    lemma_free_expr(x, *obj, *o2, vs, k);
                    lemma_free_expr(x, *index, *i2, vs, k + calls_expr(*obj).len());
                }
            },
            ExprKind::If { cond, then, else_ } => {
                if let ExprKind::If { cond: c2, then: t2, else_: e2 } = b.kind {
                    lemma_free_expr(x, *cond, *c2, vs, k);
                    lemma_free_block(x, then, t2, vs, k + calls_expr(*cond).len());
                    let k2 = k + calls_expr(*cond).len() + calls_block(then).len();
                    match else_ {
                        Some(ElseBranch::Block(p)) => {
                            if let Some(ElseBranch::Block(q)) = e2 {
                                lemma_free_block(x, p, q, vs, k2);
                            }
                        },
                        Some(ElseBranch::If(p)) => {
                            if let Some(ElseBranch::If(q)) = e2 {
                                lemma_free_expr(x, *p, *q, vs, k2);
                            }
                        },
                        None => {},
                    }
                    assert(!call_in_else(x, e2));
                }
            },
            ExprKind::IfLet { scrutinee: cond, then, else_, .. } => {
                if let ExprKind::IfLet { scrutinee: c2, then: t2, else_: e2, .. } = b.kind {
                    lemma_free_expr(x, *cond, *c2, vs, k);
                    lemma_free_block(x, then, t2, vs, k + calls_expr(*cond).len());
                    let k2 = k + calls_expr(*cond).len() + calls_block(then).len();
                    match else_ {
                        Some(ElseBranch::Block(p)) => {
                            if let Some(ElseBranch::Block(q)) = e2 {
                                lemma_free_block(x, p, q, vs, k2);
                            }
                        },
                        Some(ElseBranch::If(p)) => {
                            if let Some(ElseBranch::If(q)) = e2 {
                                lemma_free_expr(x, *p, *q, vs, k2);
                            }
                        },
                        None => {},
                    }
                    assert(!call_in_else(x, e2));
                }
            },
            ExprKind::While { cond, body } => {
                if let ExprKind::While { cond: c2, body: b2 } = b.kind {
                    lemma_free_expr(x, *cond, *c2, vs, k);
                    lemma_free_block(x, body, b2, vs, k + calls_expr(*cond).len());
                }
            },
            ExprKind::WhileLet { scrutinee: cond, body, .. } => {
                if let ExprKind::WhileLet { scrutinee: c2, body: b2, .. } = b.kind {
                    lemma_free_expr(x, *cond, *c2, vs, k);
                    lemma_free_block(x, body, b2, vs, k + calls_expr(*cond).len());
                }
            },
            ExprKind::For { iter: cond, body, .. } => {
                if let ExprKind::For { iter: c2, body: b2, .. } = b.kind {
                    lemma_free_expr(x, *cond, *c2, vs, k);
                    lemma_free_block(x, body, b2, vs, k + calls_expr(*cond).len());
                }
            },
            ExprKind::ParallelFor { iter: cond, body, .. } => {
                if let ExprKind::ParallelFor { iter: c2, body: b2, .. } = b.kind {
                    lemma_free_expr(x, *cond, *c2, vs, k);
                    lemma_free_block(x, body, b2, vs, k + calls_expr(*cond).len());
                }
            },
            ExprKind::Match { scrutinee, arms } => {
                if let ExprKind::Match { scrutinee: s2, arms: a2 } = b.kind {
                    lemma_free_expr(x, *scrutinee, *s2, vs, k);
                    lemma_free_arms(x, arms, a2, vs, k + calls_expr(*scrutinee).len(), arms.len() as int);
                }
            },
            ExprKind::Block(p) => {
                if let ExprKind::Block(q) = b.kind {
                    lemma_free_block(x, p, q, vs, k);
                }
            },
            ExprKind::Lambda { body, .. } => {
                if let ExprKind::Lambda { body: y, .. } = b.kind {
                    lemma_free_expr(x, *body, *y, vs, k);
                }
            },
            ExprKind::Spawn(p) => {
                if let ExprKind::Spawn(q) = b.kind {
                    lemma_free_expr(x, *p, *q, vs, k);
                }
            },
            ExprKind::NamedArg { value, .. } => {
                if let ExprKind::NamedArg { value: q, .. } = b.kind {
                    lemma_free_expr(x, *value, *q, vs, k);
                }
            },
            ExprKind::Try(p) => {
                if let ExprKind::Try(q) = b.kind {
                    lemma_free_expr(x, *p, *q, vs, k);
                }
            },
            ExprKind::TupleLit(items) => {
                if let ExprKind::TupleLit(i2) = b.kind {
                    lemma_free_list(x, items, i2, vs, k, items.len() as int);
                }
            },
            ExprKind::ArrayLit(items) => {
                if let ExprKind::ArrayLit(i2) = b.kind {
                    lemma_free_list(x, items, i2, vs, k, items.len() as int);
                }
            },
            ExprKind::RecordLit { fields, .. } => {
                if let ExprKind::RecordLit { fields: f2, .. } = b.kind {
                    lemma_free_fields(x, fields, f2, vs, k, fields.len() as int);
                }
            },
            _ => {},
        }
    }
}

proof fn lemma_free_list(x: Expr, a: Vec<Expr>, b: Vec<Expr>, vs: Seq<Option<ExprKind>>, k: int, n: int)
    requires
        rep_exprs(a, b, vs, k, n),
        0 <= n <= a.len(),
        0 <= k,
        k + calls_exprs(a, n).len() <= vs.len(),
        free_vals(vs),
    ensures
        !call_in_list(x, b, n),
        b.len() == a.len(),
    decreases a, n,
{
    if n > 0 {
        lemma_free_list(x, a, b, vs, k, n - 1);
        lemma_free_expr(x, a[n - 1], b[n - 1], vs, k + calls_exprs(a, n - 1).len());
    }
}

proof fn lemma_free_fields(x: Expr, a: Vec<RecordLitField>, b: Vec<RecordLitField>, vs: Seq<Option<ExprKind>>, k: int, n: int)
    requires
        rep_fields(a, b, vs, k, n),
        0 <= n <= a.len(),
        0 <= k,
        k + calls_fields(a, n).len() <= vs.len(),
        free_vals(vs),
    ensures
        !call_in_field_values(x, b, n),
        b.len() == a.len(),
    decreases a, n,
{
    if n > 0 {
        lemma_free_fields(x, a, b, vs, k, n - 1);
        match a[n - 1].value {
            Some(p) => {
                if let Some(q) = b[n - 1].value {
                    lemma_free_expr(x, p, q, vs, k + calls_fields(a, n - 1).len());
                }
            },
            None => {},
        }
    }
}

proof fn lemma_free_arms(x: Expr, a: Vec<MatchArm>, b: Vec<MatchArm>, vs: Seq<Option<ExprKind>>, k: int, n: int)
    requires
        rep_arms(a, b, vs, k, n),
        0 <= n <= a.len(),
        0 <= k,
        k + calls_arms(a, n).len() <= vs.len(),
        free_vals(vs),
    ensures
        !call_in_arms(x, b, n),
        b.len() == a.len(),
    decreases a, n,
{
    if n > 0 {
        lemma_free_arms(x, a, b, vs, k, n - 1);
        let k2 = k + calls_arms(a, n - 1).len();
        match a[n - 1].body {
            MatchArmBody::Expr(p) => {
                if let MatchArmBody::Expr(q) = b[n - 1].body {
                    lemma_free_expr(x, p, q, vs, k2);
                }
            },
            MatchArmBody::Block(p) => {
                if let MatchArmBody::Block(q) = b[n - 1].body {
                    lemma_free_block(x, p, q, vs, k2);
                }
            },
        }
    }
}

proof fn lemma_free_block(x: Expr, a: Block, b: Block, vs: Seq<Option<ExprKind>>, k: int)
    requires
        rep_block(a, b, vs, k),
        0 <= k,
        k + calls_block(a).len() <= vs.len(),
        free_vals(vs),
    ensures
        !call_in_block(x, b),
    decreases a, 1int,
{
    lemma_free_stmts(x, a.stmts, b.stmts, vs, k, a.stmts.len() as int);
    match a.trailing {
        Some(p) => {
            if let Some(q) = b.trailing {
                lemma_free_expr(x, *p, *q, vs, k + calls_stmts(a.stmts, a.stmts.len() as int).len());
            }
        },
        None => {},
    }
}

proof fn lemma_free_stmts(x: Expr, a: Vec<Stmt>, b: Vec<Stmt>, vs: Seq<Option<ExprKind>>, k: int, n: int)
    requires
        rep_stmts(a, b, vs, k, n),
        0 <= n <= a.len(),
        0 <= k,
        k + calls_stmts(a, n).len() <= vs.len(),
        free_vals(vs),
    ensures
        !call_in_stmt_list(x, b, n),
        b.len() == a.len(),
    decreases a, n,
{
    if n > 0 {
        lemma_free_stmts(x, a, b, vs, k, n - 1);
        lemma_free_stmt(x, a[n - 1], b[n - 1], vs, k + calls_stmts(a, n - 1).len());
    }
}

proof fn lemma_free_stmt(x: Expr, a: Stmt, b: Stmt, vs: Seq<Option<ExprKind>>, k: int)
    requires
        rep_stmt(a, b, vs, k),
        0 <= k,
        k + calls_stmt(a).len() <= vs.len(),
        free_vals(vs),
    ensures
        !call_in_stmt(x, b),
    decreases a, 0int,
{
    match a {
        Stmt::Let(d) => {
            if let Stmt::Let(d2) = b {
                lemma_free_expr(x, d.value, d2.value, vs, k);
            }
        },
        Stmt::Assign { target, value, .. } => {
            if let Stmt::Assign { target: t2, value: v2, .. } = b {
                lemma_free_expr(x, target, t2, vs, k);
                lemma_free_expr(x, value, v2, vs, k + calls_expr(target).len());
            }
        },
        Stmt::Expr(p) => {
            if let Stmt::Expr(q) = b {
                lemma_free_expr(x, p, q, vs, k);
            }
        },
        Stmt::Return { value, .. } => {
            if let Stmt::Return { value: v2, .. } = b {
                match value {
                    Some(p) => {
                        if let Some(q) = v2 {
                            lemma_free_expr(x, p, q, vs, k);
                        }
                    },
                    None => {},
                }
            }
        },
        _ => {},
    }
}

proof fn lemma_free_items(x: Expr, a: Seq<Item>, b: Seq<Item>, vs: Seq<Option<ExprKind>>, k: int, i: int)
    requires
        rep_items(a, b, vs, k),
        0 <= i < a.len(),
        0 <= k,
        k + calls_items(a, a.len() as int).len() <= vs.len(),
        free_vals(vs),
    ensures
        !call_in_item(x, b[i]),
{
    lemma_calls_items_mono(a, i + 1, a.len() as int);
    let k2 = k + calls_items(a, i).len();
    assert(rep_item(a[i], b[i], vs, k2));
    match a[i] {
        Item::Fn(f) => {
            if let Item::Fn(f2) = b[i] {
                match f.body {
                    FnBody::Block(p) => {
                        if let FnBody::Block(q) = f2.body {
                            lemma_free_block(x, p, q, vs, k2);
                        }
                    },
                    FnBody::Expr(p) => {
                        if let FnBody::Expr(q) = f2.body {
                            lemma_free_expr(x, p, q, vs, k2);
                        }
                    },
                    FnBody::External => {},
                }
            }
        },
        Item::Test(t) => {
            if let Item::Test(t2) = b[i] {
                lemma_free_block(x, t.body, t2.body, vs, k2);
            }
        },
        Item::Type(_) => {},
    }
}

proof fn lemma_free_module(x: Expr, a: Module, b: Module, vs: Seq<Option<ExprKind>>)
    requires
        rep_module(a, b, vs),
        module_calls(a).len() <= vs.len(),
        free_vals(vs),
    ensures
        !call_in_module(x, b),
{
    let ci = calls_items(a.items@, a.items@.len() as int).len();
    assert forall|i: int| 0 <= i < b.items@.len() implies !call_in_item(x, #[trigger] b.items@[i]) by {
        lemma_free_items(x, a.items@, b.items@, vs, 0, i);
    }
    assert forall|j: int, i: int| 0 <= j < b.peer_files@.len() && 0 <= i < b.peer_files@[j].items_here@.len()
        implies !call_in_item(x, #[trigger] b.peer_files@[j].items_here@[i]) by {
        let p = a.peer_files@[j];
        let q = b.peer_files@[j];
        lemma_calls_peers_mono(a.peer_files@, j + 1, a.peer_files@.len() as int);
        lemma_free_items(x, p.items_here@, q.items_here@, vs, (ci + calls_peers(a.peer_files@, j).len()) as int, i);
    }
}

proof fn lemma_no_answer_error(reqs: Seq<EmbedRequest>, ans: Seq<EmbedAnswer>, n: int, i: int)
    requires
        0 <= i < n,
        answer_errors(reqs, ans, n).len() == 0,
    ensures
        outcome(reqs[i], ans[i]) is Ok,
    decreases n,
{
    let p = answer_errors(reqs, ans, n - 1);
    if outcome(reqs[n - 1], ans[n - 1]) is Err {
        assert(answer_errors(reqs, ans, n).len() == p.len() + 1);
    }
    if i < n - 1 {
        lemma_no_answer_error(reqs, ans, n - 1, i);
    }
}

proof fn lemma_literal_free(kk: ExprKind)
    requires
        kk is HexBlobLit || kk is StrLit,
    ensures
        kind_free(kk),
{
    assert forall|x: Expr, sp: Span| !#[trigger] call_in_expr(x, Expr { kind: kk, span: sp }) by {
        assert(intrinsic_of(Expr { kind: kk, span: sp }) is None);
    }
}

proof fn lemma_entries_free(x: Expr, items: Vec<Expr>, span: Span, pairs: Seq<(Seq<char>, Seq<u8>)>, n: int)
    requires
        items.len() == pairs.len(),
        0 <= n <= items.len(),
        forall|i: int| 0 <= i < pairs.len() ==> entry_lit_is(#[trigger] items[i], span, pairs[i]),
    ensures
        !call_in_list(x, items, n),
    decreases n,
{
    if n > 0 {
        lemma_entries_free(x, items, span, pairs, n - 1);
        let e = items[n - 1];
        assert(entry_lit_is(e, span, pairs[n - 1]));
        if let ExprKind::RecordLit { fields, .. } = e.kind {
            let v0 = fields[0].value.unwrap();
            let v1 = fields[1].value.unwrap();
            lemma_literal_free(v0.kind);
            lemma_literal_free(v1.kind);
            assert(v0 == Expr { kind: v0.kind, span: v0.span });
            assert(v1 == Expr { kind: v1.kind, span: v1.span });
            assert(!call_in_expr(x, Expr { kind: v0.kind, span: v0.span }));
            assert(!call_in_expr(x, Expr { kind: v1.kind, span: v1.span }));
            assert(!call_in_field_values(x, fields, 0));
            assert(!call_in_field_values(x, fields, 1));
            assert(!call_in_field_values(x, fields, 2));
        assert(intrinsic_of(e) is None);
        assert(!call_in_expr(x, e));
        }
    }
}

proof fn lemma_dir_value_free_at(x: Expr, sp: Span, kk: ExprKind, span: Span, pairs: Seq<(Seq<char>, Seq<u8>)>)
    requires
        dir_value_is(kk, span, pairs),
    ensures
        !call_in_expr(x, Expr { kind: kk, span: sp }),
{
    if let ExprKind::Call { func, args } = kk {
        if let ExprKind::ArrayLit(items) = args[0].kind {
            lemma_entries_free(x, items, span, pairs, items.len() as int);
            assert(!call_in_expr(x, args[0]));
            assert(!call_in_list(x, args, 0));
            assert(!call_in_list(x, args, 1));
            assert(!call_in_expr(x, *func));
            assert(intrinsic_of(Expr { kind: kk, span: sp }) is None);
        }
    }
}

proof fn lemma_dir_value_free(kk: ExprKind, span: Span, pairs: Seq<(Seq<char>, Seq<u8>)>)
    requires
        dir_value_is(kk, span, pairs),
    ensures
        kind_free(kk),
{
    assert forall|x: Expr, sp: Span| !#[trigger] call_in_expr(x, Expr { kind: kk, span: sp }) by {
        lemma_dir_value_free_at(x, sp, kk, span, pairs);
    }
}

proof fn lemma_value_free(req: EmbedRequest, a: EmbedAnswer, kk: ExprKind)
    requires
        outcome(req, a) is Ok,
        value_ok(req, a, kk),
    ensures
        kind_free(kk),
{
    match kind_view(req.kind) {
        KindView::File => {
            assert(file_outcome(false, req.rel@, a) is Ok);
            assert(a is File);
            lemma_literal_free(kk);
        },
        KindView::Text => {
            assert(file_outcome(true, req.rel@, a) is Ok);
            assert(a is Text);
            lemma_literal_free(kk);
        },
        KindView::Dir { glob, .. } => {
            assert(a is Dir);
            if let EmbedAnswer::Dir { entries, .. } = a {
                let pairs = choose|pairs: Seq<(Seq<char>, Seq<u8>)>|
                    dir_pairs_ok(pairs, kept(entries@, glob, entries@.len() as int)) && #[trigger] dir_value_is(kk, req.span, pairs);
                lemma_dir_value_free(kk, req.span, pairs);
            }
        },
    }
}

/// After a successful `apply_embeds` no intrinsic call is left anywhere in
/// the module: every `embed`, `embed_str` and `embed_dir` call, wherever
/// it stood (a `let` value, an assignment, a returned value, a loop, an
/// argument, ...), was replaced by its value.
pub proof fn lemma_no_intrinsic_call_survives(
    old: Module,
    new: Module,
    reqs: Seq<EmbedRequest>,
    ans: Seq<EmbedAnswer>,
    vs: Seq<Option<ExprKind>>,
    x: Expr,
)
    requires
        requests_of(reqs, module_calls(old)),
        ans.len() == reqs.len(),
        answer_errors(reqs, ans, reqs.len() as int).len() == 0,
        vs.len() == reqs.len(),
        forall|i: int| 0 <= i < vs.len() ==> (#[trigger] vs[i] matches Some(k) && value_ok(reqs[i], ans[i], k)),
        rep_module(old, new, vs),
    ensures
        !call_in_module(x, new),
{
    assert forall|j: int| 0 <= j < vs.len() implies (#[trigger] vs[j]) is Some && kind_free(vs[j].unwrap()) by {
        lemma_no_answer_error(reqs, ans, reqs.len() as int, j);
        lemma_value_free(reqs[j], ans[j], vs[j].unwrap());
    }
    lemma_free_module(x, old, new, vs);
}

} // verus!
