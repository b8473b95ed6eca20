// Caching pass tests. Modules are written in Nova source and read by the
// small reader below, which covers the part of the language these tests use.

use compiler_codegen::ast::{
    AllocKind, BinOp, Block, ElseBranch, Expr, ExprKind, FnBody, FnDecl, Item, LetDecl, MatchArm, MatchArmBody,
    Module, Param, Pattern, Purity, Receiver, ReceiverKind, RecordField, Span, Stmt, SumVariant, TypeDecl,
    TypeDeclKind, TypeRef, UnOp,
};
use compiler_codegen::field_cache::explain::{analyze_module, ExplainReport};
use compiler_codegen::field_cache::pass::cache_module;
use compiler_codegen::field_cache::savings::{cpu_savings_estimate, CycleWeights};
use compiler_codegen::field_cache::plan::FieldCacheConfig;
use compiler_codegen::field_cache::scc_cache::ScCache;
use compiler_codegen::field_cache::sets_cache::{module_write_sets_cached, module_read_sets_cached, scc_cache_enabled};
use compiler_codegen::field_cache::writeset::module_write_sets;
use compiler_codegen::field_cache::ipa::WriteSets;

#[derive(Debug, Clone, PartialEq)]
enum Tok {
    Ident(String),
    Int(i64),
    Str(String),
    Sym(&'static str),
    Newline,
}

fn lex(src: &str) -> Vec<Tok> {
    const SYMS: [&str; 29] = [
        "->", "=>", "==", "!=", "<=", ">=", "&&", "||", "{", "}", "(", ")", "[", "]", ",", ".", "@", "=", "<", ">",
        "+", "-", "*", "/", "%", "|", "!", ":", "?",
    ];
    let chars: Vec<char> = src.chars().collect();
    let mut out = Vec::new();
    let mut i = 0;
    while i < chars.len() {
        let c = chars[i];
        if c == '\n' {
            out.push(Tok::Newline);
            i += 1;
        } else if c.is_whitespace() {
            i += 1;
        } else if c.is_ascii_digit() {
            let mut n: i64 = 0;
            while i < chars.len() && chars[i].is_ascii_digit() {
                n = n * 10 + (chars[i] as i64 - '0' as i64);
                i += 1;
            }
            out.push(Tok::Int(n));
        } else if c.is_alphabetic() || c == '_' {
            let mut s = String::new();
            while i < chars.len() && (chars[i].is_alphanumeric() || chars[i] == '_') {
                s.push(chars[i]);
                i += 1;
            }
            out.push(Tok::Ident(s));
        } else if c == '"' {
            let mut s = String::new();
            i += 1;
            while i < chars.len() && chars[i] != '"' {
                s.push(chars[i]);
                i += 1;
            }
            i += 1;
            out.push(Tok::Str(s));
        } else {
            let rest: String = chars[i..chars.len().min(i + 2)].iter().collect();
            let sym = SYMS.iter().find(|s| rest.starts_with(**s)).expect("unknown symbol");
            out.push(Tok::Sym(sym));
            i += sym.len();
        }
    }
    out
}

struct Reader {
    toks: Vec<Tok>,
    pos: usize,
    offset: u32,
}

impl Reader {
    fn span(&mut self) -> Span {
        self.offset += 1;
        Span { start: self.offset, end: self.offset + 1, file_id: 0 }
    }
    fn peek(&self) -> Option<&Tok> {
        self.toks.get(self.pos)
    }
    fn peek_at(&self, k: usize) -> Option<&Tok> {
        self.toks.get(self.pos + k)
    }
    fn next(&mut self) -> Tok {
        let t = self.toks[self.pos].clone();
        self.pos += 1;
        t
    }
    fn skip_newlines(&mut self) {
        while self.peek() == Some(&Tok::Newline) {
            self.pos += 1;
        }
    }
    fn is_sym(&self, s: &str) -> bool {
        matches!(self.peek(), Some(Tok::Sym(x)) if *x == s)
    }
    fn is_word(&self, w: &str) -> bool {
        matches!(self.peek(), Some(Tok::Ident(x)) if x == w)
    }
    fn eat_sym(&mut self, s: &str) -> bool {
        if self.is_sym(s) {
            self.pos += 1;
            true
        } else {
            false
        }
    }
    fn expect_sym(&mut self, s: &str) {
        assert!(self.eat_sym(s), "expected {} at {:?}", s, self.peek());
    }
    fn ident(&mut self) -> String {
        match self.next() {
            Tok::Ident(s) => s,
            t => panic!("expected identifier, got {:?}", t),
        }
    }

    fn module(&mut self) -> Module {
        self.skip_newlines();
        let mut name = Vec::new();
        if self.is_word("module") {
            self.pos += 1;
            name.push(self.ident());
            while self.eat_sym(".") {
                name.push(self.ident());
            }
        }
        let mut items = Vec::new();
        loop {
            self.skip_newlines();
            if self.peek().is_none() {
                break;
            }
            if self.is_word("type") {
                items.push(Item::Type(self.type_decl()));
            } else if self.is_word("fn") {
                items.push(Item::Fn(self.fn_decl()));
            } else if self.is_word("pure") {
                self.pos += 1;
                let mut f = self.fn_decl();
                f.purity = Purity::Pure;
                items.push(Item::Fn(f));
            } else {
                panic!("unexpected {:?}", self.peek());
            }
        }
        Module { name, items, peer_files: Vec::new() }
    }

    fn type_ref(&mut self) -> TypeRef {
        if self.eat_sym("[") {
            self.expect_sym("]");
            TypeRef::Array(Box::new(self.type_ref()))
        } else if self.eat_sym("(") {
            self.expect_sym(")");
            let sp = self.span();
            TypeRef::Unit(sp)
        } else {
            TypeRef::Named(self.ident())
        }
    }

    fn type_decl(&mut self) -> TypeDecl {
        self.pos += 1;
        let name = self.ident();
        let kind = if self.eat_sym("|") {
            let mut variants = Vec::new();
            loop {
                let vname = self.ident();
                let mut fields = Vec::new();
                if self.eat_sym("(") {
                    while !self.eat_sym(")") {
                        fields.push(self.type_ref());
                        self.eat_sym(",");
                    }
                }
                variants.push(SumVariant { name: vname, fields });
                if !self.eat_sym("|") {
                    break;
                }
            }
            TypeDeclKind::Sum(variants)
        } else if self.is_word("protocol") || self.is_word("effect") {
            let is_protocol = self.is_word("protocol");
            self.pos += 1;
            self.expect_sym("{");
            let mut methods = Vec::new();
            loop {
                self.skip_newlines();
                if self.eat_sym("}") {
                    break;
                }
                methods.push(self.ident());
                self.expect_sym("(");
                while !self.eat_sym(")") {
                    self.pos += 1;
                }
                if self.eat_sym("->") {
                    self.type_ref();
                }
                self.eat_sym(",");
            }
            if is_protocol { TypeDeclKind::Protocol { methods } } else { TypeDeclKind::Effect(methods) }
        } else {
            self.expect_sym("{");
            let mut fields = Vec::new();
            loop {
                self.skip_newlines();
                if self.eat_sym("}") {
                    break;
                }
                let mut readonly = false;
                let mut mutable = false;
                if self.is_word("ro") {
                    readonly = true;
                    self.pos += 1;
                } else if self.is_word("mut") {
                    mutable = true;
                    self.pos += 1;
                }
                let fname = self.ident();
                let ty = self.type_ref();
                fields.push(RecordField { name: fname, ty, readonly, mutable, consume: false, is_embed: false });
                self.eat_sym(",");
            }
            TypeDeclKind::Record(fields)
        };
        TypeDecl { name, kind, allocation: AllocKind::Heap, is_export: false }
    }

    fn fn_decl(&mut self) -> FnDecl {
        let span = self.span();
        self.pos += 1;
        let mut receiver = None;
        let name;
        if self.is_sym("@") {
            panic!("method without receiver type");
        }
        let first = self.ident();
        if self.eat_sym(".") {
            name = self.ident();
            receiver = Some(Receiver { owner_type: first, kind: ReceiverKind::Static, mutable: false });
        } else if self.is_sym("@") || self.is_word("mut") {
            let mutable = if self.is_word("mut") {
                self.pos += 1;
                true
            } else {
                false
            };
            self.expect_sym("@");
            name = self.ident();
            receiver = Some(Receiver { owner_type: first, kind: ReceiverKind::Instance, mutable });
        } else {
            name = first;
        }
        self.expect_sym("(");
        let mut params = Vec::new();
        while !self.eat_sym(")") {
            let pname = self.ident();
            let ty = self.type_ref();
            params.push(Param { name: pname, ty });
            self.eat_sym(",");
        }
        let ret = if self.eat_sym("->") { Some(self.type_ref()) } else { None };
        let body = FnBody::Block(self.block());
        FnDecl {
            name,
            receiver,
            params,
            effects: Vec::new(),
            ret,
            body,
            purity: Purity::Impure,
            is_external: false,
            is_export: false,
            span,
        }
    }

    fn block(&mut self) -> Block {
        let span = self.span();
        self.expect_sym("{");
        let mut stmts = Vec::new();
        let mut trailing = None;
        loop {
            self.skip_newlines();
            if self.eat_sym("}") {
                break;
            }
            if self.is_word("ro") || self.is_word("mut") {
                let mutable = self.is_word("mut");
                self.pos += 1;
                let pattern = self.pattern();
                let ty = if self.is_sym("=") { None } else { Some(self.type_ref()) };
                self.expect_sym("=");
                let value = self.expr();
                let sp = self.span();
                stmts.push(Stmt::Let(LetDecl { mutable, pattern, ty, value, span: sp }));
                continue;
            }
            if self.is_word("return") {
                self.pos += 1;
                let sp = self.span();
                let value = if self.peek() == Some(&Tok::Newline) || self.is_sym("}") { None } else { Some(self.expr()) };
                stmts.push(Stmt::Return { value, span: sp });
                continue;
            }
            let e = self.expr();
            if self.eat_sym("=") {
                let value = self.expr();
                let sp = self.span();
                stmts.push(Stmt::Assign { target: e, value, span: sp });
                continue;
            }
            self.skip_newlines();
            if self.is_sym("}") {
                trailing = Some(Box::new(e));
            } else {
                stmts.push(Stmt::Expr(e));
            }
        }
        Block { stmts, trailing, span }
    }

    fn pattern(&mut self) -> Pattern {
        match self.next() {
            Tok::Int(n) => Pattern::Literal(n),
            Tok::Ident(s) if s == "_" => Pattern::Wildcard,
            Tok::Ident(s) => {
                if self.eat_sym("(") {
                    let mut args = Vec::new();
                    while !self.eat_sym(")") {
                        args.push(self.pattern());
                        self.eat_sym(",");
                    }
                    Pattern::Variant { name: s, args }
                } else {
                    Pattern::Ident { name: s, is_mut: false }
                }
            },
            t => panic!("bad pattern {:?}", t),
        }
    }

    fn expr(&mut self) -> Expr {
        if self.is_sym("||") || self.is_sym("|") {
            let mut params = Vec::new();
            if !self.eat_sym("||") {
                self.expect_sym("|");
                while !self.eat_sym("|") {
                    params.push(self.ident());
                    self.eat_sym(",");
                }
            }
            let body = self.expr();
            let sp = self.span();
            return Expr { kind: ExprKind::Lambda { params, body: Box::new(body) }, span: sp };
        }
        self.binary(0)
    }

    fn binary(&mut self, level: usize) -> Expr {
        const LEVELS: [&[(&str, BinOp)]; 5] = [
            &[("||", BinOp::Or)],
            &[("&&", BinOp::And)],
            &[("==", BinOp::Eq), ("!=", BinOp::Ne), ("<=", BinOp::Le), (">=", BinOp::Ge), ("<", BinOp::Lt), (">", BinOp::Gt)],
            &[("+", BinOp::Add), ("-", BinOp::Sub)],
            &[("*", BinOp::Mul), ("/", BinOp::Div), ("%", BinOp::Rem)],
        ];
        if level == LEVELS.len() {
            return self.unary();
        }
        let mut left = self.binary(level + 1);
        loop {
            let op = LEVELS[level].iter().find(|(s, _)| self.is_sym(s)).map(|(_, op)| *op);
            match op {
                Some(op) => {
                    self.pos += 1;
                    let right = self.binary(level + 1);
                    let sp = self.span();
                    left = Expr { kind: ExprKind::Binary { op, left: Box::new(left), right: Box::new(right) }, span: sp };
                },
                None => return left,
            }
        }
    }

    fn unary(&mut self) -> Expr {
        if self.eat_sym("-") {
            let e = self.unary();
            let sp = self.span();
            return Expr { kind: ExprKind::Unary { op: UnOp::Neg, operand: Box::new(e) }, span: sp };
        }
        if self.eat_sym("!") {
            let e = self.unary();
            let sp = self.span();
            return Expr { kind: ExprKind::Unary { op: UnOp::Not, operand: Box::new(e) }, span: sp };
        }
        self.postfix()
    }

    fn postfix(&mut self) -> Expr {
        let mut e = self.primary();
        loop {
            if self.eat_sym(".") {
                let name = self.ident();
                let sp = self.span();
                e = Expr { kind: ExprKind::Member { obj: Box::new(e), name }, span: sp };
            } else if self.is_sym("(") {
                self.pos += 1;
                let mut args = Vec::new();
                while !self.eat_sym(")") {
                    args.push(self.expr());
                    self.eat_sym(",");
                }
                let sp = self.span();
                e = Expr { kind: ExprKind::Call { func: Box::new(e), args }, span: sp };
            } else if self.eat_sym("?") {
                let sp = self.span();
                e = Expr { kind: ExprKind::Try(Box::new(e)), span: sp };
            } else if self.is_sym("[") {
                self.pos += 1;
                let index = self.expr();
                self.expect_sym("]");
                let sp = self.span();
                e = Expr { kind: ExprKind::Index { obj: Box::new(e), index: Box::new(index) }, span: sp };
            } else {
                return e;
            }
        }
    }

    fn primary(&mut self) -> Expr {
        let sp = self.span();
        if self.eat_sym("@") {
            if let Some(Tok::Ident(_)) = self.peek() {
                let name = self.ident();
                let obj = Expr { kind: ExprKind::SelfAccess, span: sp };
                let sp2 = self.span();
                return Expr { kind: ExprKind::Member { obj: Box::new(obj), name }, span: sp2 };
            }
            return Expr { kind: ExprKind::SelfAccess, span: sp };
        }
        if self.eat_sym("(") {
            if self.eat_sym(")") {
                return Expr { kind: ExprKind::UnitLit, span: sp };
            }
            let e = self.expr();
            self.expect_sym(")");
            return e;
        }
        if self.is_sym("{") {
            let b = self.block();
            return Expr { kind: ExprKind::Block(b), span: sp };
        }
        match self.next() {
            Tok::Int(n) => Expr { kind: ExprKind::IntLit(n), span: sp },
            Tok::Str(s) => Expr { kind: ExprKind::StrLit(s), span: sp },
            Tok::Ident(w) if w == "true" => Expr { kind: ExprKind::BoolLit(true), span: sp },
            Tok::Ident(w) if w == "false" => Expr { kind: ExprKind::BoolLit(false), span: sp },
            Tok::Ident(w) if w == "if" && self.is_word("let") => {
                self.pos += 1;
                let pattern = self.pattern();
                self.expect_sym("=");
                let scrutinee = self.expr();
                let then = self.block();
                let save = self.pos;
                self.skip_newlines();
                let else_ = if self.is_word("else") {
                    self.pos += 1;
                    Some(ElseBranch::Block(self.block()))
                } else {
                    self.pos = save;
                    None
                };
                Expr { kind: ExprKind::IfLet { pattern, scrutinee: Box::new(scrutinee), then, else_ }, span: sp }
            },
            Tok::Ident(w) if w == "if" => {
                let cond = self.expr();
                let then = self.block();
                let save = self.pos;
                self.skip_newlines();
                let else_ = if self.is_word("else") {
                    self.pos += 1;
                    if self.is_word("if") {
                        Some(ElseBranch::If(Box::new(self.primary())))
                    } else {
                        Some(ElseBranch::Block(self.block()))
                    }
                } else {
                    self.pos = save;
                    None
                };
                Expr { kind: ExprKind::If { cond: Box::new(cond), then, else_ }, span: sp }
            },
            Tok::Ident(w) if w == "while" && self.is_word("let") => {
                self.pos += 1;
                let pattern = self.pattern();
                self.expect_sym("=");
                let scrutinee = self.expr();
                let body = self.block();
                Expr { kind: ExprKind::WhileLet { pattern, scrutinee: Box::new(scrutinee), body }, span: sp }
            },
            Tok::Ident(w) if w == "while" => {
                let cond = self.expr();
                let body = self.block();
                Expr { kind: ExprKind::While { cond: Box::new(cond), body }, span: sp }
            },
            Tok::Ident(w) if w == "loop" => {
                let body = self.block();
                let cond = Expr { kind: ExprKind::BoolLit(true), span: sp };
                Expr { kind: ExprKind::While { cond: Box::new(cond), body }, span: sp }
            },
            Tok::Ident(w) if w == "for" => {
                let var = self.ident();
                assert!(self.is_word("in"), "expected `in`");
                self.pos += 1;
                let iter = self.expr();
                let body = self.block();
                Expr { kind: ExprKind::For { var, iter: Box::new(iter), body }, span: sp }
            },
            Tok::Ident(w) if w == "match" => {
                let scrutinee = self.expr();
                self.expect_sym("{");
                let mut arms = Vec::new();
                loop {
                    self.skip_newlines();
                    if self.eat_sym("}") {
                        break;
                    }
                    let pattern = self.pattern();
                    self.expect_sym("=>");
                    let body = if self.is_sym("{") { MatchArmBody::Block(self.block()) } else { MatchArmBody::Expr(self.expr()) };
                    self.eat_sym(",");
                    arms.push(MatchArm { pattern, body });
                }
                Expr { kind: ExprKind::Match { scrutinee: Box::new(scrutinee), arms }, span: sp }
            },
            Tok::Ident(w) => Expr { kind: ExprKind::Ident(w), span: sp },
            t => panic!("unexpected token {:?}", t),
        }
    }
}

/// Reads a Nova module.
fn parse(src: &str) -> Result<Module, String> {
    let mut r = Reader { toks: lex(src), pos: 0, offset: 0 };
    Ok(r.module())
}

fn run_pass(src: &str, cfg: FieldCacheConfig) -> Module {
    let mut module = parse(src).expect("parse");
    cache_module(&mut module, &cfg);
    module
}

fn find_fn<'a>(module: &'a Module, name: &str) -> &'a FnDecl {
    for item in &module.items {
        if let Item::Fn(f) = item {
            if f.name == name {
                return f;
            }
        }
    }
    panic!("fn {} not found", name);
}

fn count_prefix_lets(f: &FnDecl) -> usize {
    if let FnBody::Block(b) = &f.body {
        b.stmts
            .iter()
            .take_while(|s| {
                matches!(s, Stmt::Let(d)
                if matches!(&d.pattern, Pattern::Ident { name, .. } if name.starts_with("_at_")))
            })
            .count()
    } else {
        0
    }
}

fn count_all_at_lets(f: &FnDecl) -> usize {
    let FnBody::Block(b) = &f.body else { return 0 };
    b.stmts
        .iter()
        .filter(|s| {
            matches!(s, Stmt::Let(d)
                if matches!(&d.pattern,
                    Pattern::Ident { name, .. } if name.starts_with("_at_")))
        })
        .count()
}

fn all_at_let_names(f: &FnDecl) -> Vec<String> {
    let FnBody::Block(b) = &f.body else { return vec![] };
    b.stmts
        .iter()
        .filter_map(|s| {
            if let Stmt::Let(d) = s {
                if let Pattern::Ident { name, .. } = &d.pattern {
                    if name.starts_with("_at_") {
                        return Some(name.clone());
                    }
                }
            }
            None
        })
        .collect()
}

fn walk_block(b: &Block, out: &mut Vec<String>) {
    for s in &b.stmts {
        walk_stmt(s, out);
    }
    if let Some(t) = &b.trailing {
        walk_expr(t, out);
    }
}

fn walk_stmt(s: &Stmt, out: &mut Vec<String>) {
    match s {
        Stmt::Let(d) => {
            if let Pattern::Ident { name, .. } = &d.pattern {
                if name.starts_with("_at_") {
                    out.push(name.clone());
                }
            }
            walk_expr(&d.value, out);
        },
        Stmt::Expr(e) => walk_expr(e, out),
        Stmt::Assign { target, value, .. } => {
            walk_expr(target, out);
            walk_expr(value, out);
        },
        Stmt::Return { value, .. } => {
            if let Some(v) = value {
                walk_expr(v, out);
            }
        },
        _ => {},
    }
}

fn walk_expr(e: &Expr, out: &mut Vec<String>) {
    match &e.kind {
        ExprKind::Block(b) => walk_block(b, out),
        ExprKind::If { cond, then, else_ } | ExprKind::IfLet { scrutinee: cond, then, else_, .. } => {
            walk_expr(cond, out);
            walk_block(then, out);
            if let Some(eb) = else_ {
                match eb {
                    ElseBranch::Block(b) => walk_block(b, out),
                    ElseBranch::If(e) => walk_expr(e, out),
                }
            }
        },
        ExprKind::Match { scrutinee, arms } => {
            walk_expr(scrutinee, out);
            for arm in arms {
                match &arm.body {
                    MatchArmBody::Expr(e) => walk_expr(e, out),
                    MatchArmBody::Block(b) => walk_block(b, out),
                }
            }
        },
        ExprKind::While { cond, body } | ExprKind::WhileLet { scrutinee: cond, body, .. } | ExprKind::For { iter: cond, body, .. } => {
            walk_expr(cond, out);
            walk_block(body, out);
        },
        ExprKind::Call { func, args } => {
            walk_expr(func, out);
            for a in args {
                walk_expr(a, out);
            }
        },
        ExprKind::Member { obj, .. } | ExprKind::Unary { operand: obj, .. } | ExprKind::Spawn(obj) | ExprKind::Try(obj) => walk_expr(obj, out),
        ExprKind::Binary { left, right, .. } => {
            walk_expr(left, out);
            walk_expr(right, out);
        },
        ExprKind::Index { obj, index } => {
            walk_expr(obj, out);
            walk_expr(index, out);
        },
        _ => {},
    }
}

fn all_at_let_names_recursive(f: &FnDecl) -> Vec<String> {
    let mut out = Vec::new();
    if let FnBody::Block(b) = &f.body {
        walk_block(b, &mut out);
    }
    out
}

#[test]
fn v1_1_mut_two_regions_split_by_write() {
    let src = r#"
module testmod.v1_1_two_regions_write
type C { mut x int }
fn C mut @do() -> int {
    ro a = @x
    ro b = @x
    @x = 99
    ro c = @x
    ro d = @x
    a + b + c + d
}
"#;
    let m = run_pass(src, FieldCacheConfig::default());
    let f = find_fn(&m, "do");
    let names = all_at_let_names(f);
    assert!(names.contains(&"_at_x".to_string()), "expected first-region _at_x; got {:?}", names);
    assert!(names.contains(&"_at_x_r1".to_string()), "expected second-region _at_x_r1; got {:?}", names);
    assert_eq!(count_all_at_lets(f), 2);
}

#[test]
fn ro_two_reads_cached() {
    let src = r#"
module testmod.ro_cached
type Point { ro x int, ro y int }
fn Point @sum_squared() -> int { @x * @x + @y * @y }
"#;
    let m = run_pass(src, FieldCacheConfig::default());
    let f = find_fn(&m, "sum_squared");
    assert_eq!(count_prefix_lets(f), 2, "expected 2 ro caches");
}

#[test]
fn v1_1_mut_two_regions_split_by_call() {
    let src = r#"
module testmod.v1_1_two_regions_call
type C { mut x int }
fn C mut @bump_x() -> () { @x = @x + 1 }
fn C mut @do() -> int {
    ro a = @x
    ro b = @x
    @bump_x()
    ro c = @x
    ro d = @x
    a + b + c + d
}
"#;
    let m = run_pass(src, FieldCacheConfig::default());
    let f = find_fn(&m, "do");
    let names = all_at_let_names(f);
    assert!(names.contains(&"_at_x".to_string()), "expected first-region _at_x; got {:?}", names);
    assert!(names.contains(&"_at_x_r1".to_string()), "expected second-region _at_x_r1 after self-mutating call; got {:?}", names);
}

#[test]
fn v1_1_mut_three_regions() {
    let src = r#"
module testmod.v1_1_three_regions
type C { mut x int }
fn C mut @bump_x() -> () { @x = @x + 1 }
fn C mut @do() -> int {
    ro a1 = @x
    ro a2 = @x
    @x = 99
    ro b1 = @x
    ro b2 = @x
    @bump_x()
    ro c1 = @x
    ro c2 = @x
    a1 + a2 + b1 + b2 + c1 + c2
}
"#;
    let m = run_pass(src, FieldCacheConfig::default());
    let f = find_fn(&m, "do");
    let names = all_at_let_names(f);
    assert!(names.contains(&"_at_x".to_string()), "got {:?}", names);
    assert!(names.contains(&"_at_x_r1".to_string()), "got {:?}", names);
    assert!(names.contains(&"_at_x_r2".to_string()), "got {:?}", names);
    assert_eq!(count_all_at_lets(f), 3);
}

#[test]
fn v1_1_single_region_preserves_v1_naming() {
    let src = r#"
module testmod.v1_1_single
type C { mut x int }
fn C mut @do() -> int {
    ro a = @x
    ro b = @x
    a + b
}
"#;
    let m = run_pass(src, FieldCacheConfig::default());
    let f = find_fn(&m, "do");
    let names = all_at_let_names(f);
    assert_eq!(names, vec!["_at_x".to_string()], "V1 backwards compat: single region keeps `_at_x` name; got {:?}", names);
}

#[test]
fn v1_1_region_below_threshold_skipped() {
    let src = r#"
module testmod.v1_1_below_threshold
type C { mut x int }
fn C mut @do() -> int {
    ro a = @x
    ro b = @x
    @x = 99
    ro c = @x
    a + b + c
}
"#;
    let m = run_pass(src, FieldCacheConfig::default());
    let f = find_fn(&m, "do");
    let names = all_at_let_names(f);
    assert!(names.contains(&"_at_x".to_string()));
    assert!(!names.contains(&"_at_x_r1".to_string()), "single-read region must NOT emit `_at_x_r1`; got {:?}", names);
}

#[test]
fn v1_1_no_reads_no_cache() {
    let src = r#"
module testmod.v1_1_no_reads
type C { mut x int }
fn C mut @set_only() -> () { @x = 42 }
"#;
    let m = run_pass(src, FieldCacheConfig::default());
    let f = find_fn(&m, "set_only");
    assert_eq!(count_all_at_lets(f), 0);
}

#[test]
fn v1_1_ro_field_unaffected_by_barriers() {
    let src = r#"
module testmod.v1_1_ro_unaffected
type C { ro x int, mut y int }
fn C mut @do() -> int {
    ro a = @x
    @y = 99
    ro b = @x
    a + b
}
"#;
    let m = run_pass(src, FieldCacheConfig::default());
    let f = find_fn(&m, "do");
    let names = all_at_let_names(f);
    assert_eq!(names.iter().filter(|n| *n == "_at_x").count(), 1, "ro x should still be cached once; got {:?}", names);
    assert!(!names.iter().any(|n| n.starts_with("_at_x_r")), "ro fields shouldn't get region suffixes; got {:?}", names);
}

#[test]
fn v1_1_budget_caps_multi_region() {
    let src = r#"
module testmod.v1_1_budget
type C { mut x int }
fn C mut @do() -> int {
    ro a1 = @x
    ro a2 = @x
    @x = 1
    ro b1 = @x
    ro b2 = @x
    @x = 2
    ro c1 = @x
    ro c2 = @x
    a1 + a2 + b1 + b2 + c1 + c2
}
"#;
    let cfg = FieldCacheConfig { max_per_fn: 2, ..FieldCacheConfig::default() };
    let m = run_pass(src, cfg);
    let f = find_fn(&m, "do");
    let names: Vec<String> = all_at_let_names(f).into_iter().filter(|n| n.starts_with("_at_x")).collect();
    assert!(names.len() <= 2, "budget=2 must cap at 2 mut regions; got {:?}", names);
}

#[test]
fn v7_5_sibling_field_cache_survives_field_method_call() {
    let src = r#"
module testmod.v7_5_sibling_survives
type Buf { mut n int, mut arr []int }
fn Buf mut @len_and_grow() -> int {
    ro a = @n
    @arr.push(42)
    ro b = @n
    a + b
}
"#;
    let m = run_pass(src, FieldCacheConfig::default());
    let f = find_fn(&m, "len_and_grow");
    let names = all_at_let_names(f);
    assert!(names.iter().any(|n| n == "_at_n"), "expected _at_n outer cache (sibling-safe under V7.5); got {:?}", names);
}

#[test]
fn v7_5_own_field_still_invalidates_under_field_method_call() {
    let src = r#"
module testmod.v7_5_own_invalidates
type Buf { mut arr []int }
fn Buf mut @grow_twice() -> int {
    ro a = @arr.len()
    ro b = @arr.len()
    @arr.push(1)
    ro c = @arr.len()
    ro d = @arr.len()
    a + b + c + d
}
"#;
    let m = run_pass(src, FieldCacheConfig::default());
    let f = find_fn(&m, "grow_twice");
    let names = all_at_let_names_recursive(f);
    let _ = names;
}

#[test]
fn v7_5_multiple_siblings_cached() {
    let src = r#"
module testmod.v7_5_multi_siblings
type Tracker {
    mut count int
    mut total int
    mut arr []int
}
fn Tracker mut @sample_then_grow(v int) -> int {
    ro c1 = @count
    ro t1 = @total
    @arr.push(v)
    ro c2 = @count
    ro t2 = @total
    c1 + t1 + c2 + t2
}
"#;
    let m = run_pass(src, FieldCacheConfig::default());
    let f = find_fn(&m, "sample_then_grow");
    let names = all_at_let_names_recursive(f);
    assert!(names.iter().any(|n| n == "_at_count"), "expected _at_count (sibling under V7.5); got {:?}", names);
    assert!(names.iter().any(|n| n == "_at_total"), "expected _at_total (sibling under V7.5); got {:?}", names);
}

#[test]
fn v7_5_var_method_call_still_invalidates() {
    let src = r#"
module testmod.v7_5_var_method
type C { mut n int }
fn C mut @do(v []int) -> int {
    ro a = @n
    v.push(99)
    ro b = @n
    a + b
}
"#;
    let m = run_pass(src, FieldCacheConfig::default());
    let f = find_fn(&m, "do");
    let names = all_at_let_names_recursive(f);
    assert!(!names.iter().any(|n| n == "_at_n"), "var.method() must still invalidate; got {:?}", names);
}

#[test]
fn v7_5_chain_receiver_still_invalidates() {
    let src = r#"
module testmod.v7_5_chain_recv
type Inner { mut sub []int }
type C { mut n int, mut inner Inner }
fn C mut @do() -> int {
    ro a = @n
    @inner.sub.push(1)
    ro b = @n
    a + b
}
"#;
    let m = run_pass(src, FieldCacheConfig::default());
    let f = find_fn(&m, "do");
    let names = all_at_let_names_recursive(f);
    assert!(!names.iter().any(|n| n == "_at_n"), "chain @a.b.method() must invalidate (V7.5 scoped to direct); got {:?}", names);
}

#[test]
fn v7_5_compose_with_v1_1_multi_region() {
    let src = r#"
module testmod.v7_5_compose_v1_1
type Buf { mut count int, mut arr []int }
fn Buf mut @ops() -> int {
    ro c1 = @count
    ro c2 = @count
    @arr.push(99)
    ro c3 = @count
    ro c4 = @count
    c1 + c2 + c3 + c4
}
"#;
    let m = run_pass(src, FieldCacheConfig::default());
    let f = find_fn(&m, "ops");
    let names = all_at_let_names_recursive(f);
    assert!(names.iter().any(|n| n == "_at_count"), "expected _at_count outer cache (V7.5 sibling-safe); got {:?}", names);
    assert!(!names.iter().any(|n| n == "_at_count_r1"), "no V1.1 split needed when V7.5 makes single region; got {:?}", names);
}

#[test]
fn ro_single_read_not_cached() {
    let src = r#"
module testmod.single
type Point { ro x int }
fn Point @just_x() -> int { @x }
"#;
    let m = run_pass(src, FieldCacheConfig::default());
    let f = find_fn(&m, "just_x");
    assert_eq!(count_prefix_lets(f), 0);
}

#[test]
fn escape_hatch_threshold_zero() {
    let src = r#"
module testmod.escape
type P { ro x int }
fn P @three() -> int { @x + @x + @x }
"#;
    let cfg = FieldCacheConfig::from_threshold(0, 8);
    let m = run_pass(src, cfg);
    let f = find_fn(&m, "three");
    assert_eq!(count_prefix_lets(f), 0);
}

#[test]
fn closure_capture_skips_cache() {
    let src = r#"
module testmod.closure
type Box { ro v int }
fn Box @sum() -> int {
    ro f = || @v + 1
    @v + @v + @v
}
"#;
    let m = run_pass(src, FieldCacheConfig::default());
    let f = find_fn(&m, "sum");
    assert_eq!(count_prefix_lets(f), 0, "closure captures @v → cache skipped");
}

#[test]
fn mut_call_boundary_no_cache_after() {
    let src = r#"
module testmod.mut_call
type C { mut v int }
fn C.foo(x int) -> int { x + 1 }
fn C @work() -> int {
    ro y = @v + @v
    ro _ = C.foo(0)
    @v + @v
}
"#;
    let m = run_pass(src, FieldCacheConfig::default());
    let f = find_fn(&m, "work");
    assert_eq!(count_prefix_lets(f), 1, "mut field cached for prefix region");
}

#[test]
fn mut_write_boundary_truncates() {
    let src = r#"
module testmod.mut_write
type C { mut v int }
fn C mut @work() -> int {
    ro a = @v + @v
    @v = a
    @v + @v
}
"#;
    let m = run_pass(src, FieldCacheConfig::default());
    let f = find_fn(&m, "work");
    assert_eq!(count_prefix_lets(f), 1);
}

#[test]
fn protocol_receiver_skipped() {
    let src = r#"
module testmod.proto
type Counted protocol { count() -> int }
fn Counted @double_count() -> int { @count() + @count() }
"#;
    let parsed = parse(src);
    if let Ok(mut module) = parsed {
        cache_module(&mut module, &FieldCacheConfig::default());
        let f = find_fn(&module, "double_count");
        assert_eq!(count_prefix_lets(f), 0, "protocol receiver — no caching");
    }
}

#[test]
fn effect_receiver_skipped() {
    let src = r#"
module testmod.eff
type Log effect { write(s str) -> () }
"#;
    let mut m = parse(src).expect("parse");
    cache_module(&mut m, &FieldCacheConfig::default());
}

#[test]
fn name_collision_suffix() {
    let src = r#"
module testmod.collision
type Box { ro x int }
fn Box @collide() -> int {
    ro _at_x = 99
    @x + @x + _at_x
}
"#;
    let m = run_pass(src, FieldCacheConfig::default());
    let f = find_fn(&m, "collide");
    if let FnBody::Block(b) = &f.body {
        let cache_let_name = b.stmts.iter().find_map(|s| {
            if let Stmt::Let(d) = s {
                if let Pattern::Ident { name, .. } = &d.pattern {
                    if let ExprKind::Member { obj, name: fname } = &d.value.kind {
                        if matches!(obj.kind, ExprKind::SelfAccess) && fname == "x" {
                            return Some(name.clone());
                        }
                    }
                }
            }
            None
        });
        assert_eq!(cache_let_name.as_deref(), Some("_at_x_1"), "expected suffix due to collision");
    } else {
        panic!("expected Block body");
    }
}

#[test]
fn max_per_fn_cap() {
    let src = r#"
module testmod.cap
type Many { ro a int, ro b int, ro c int, ro d int }
fn Many @sum() -> int {
    @a + @a + @b + @b + @c + @c + @d + @d
}
"#;
    let cfg = FieldCacheConfig { enabled: true, threshold: 2, max_per_fn: 2, ..FieldCacheConfig::default() };
    let m = run_pass(src, cfg);
    let f = find_fn(&m, "sum");
    assert_eq!(count_prefix_lets(f), 2);
}

#[test]
fn static_receiver_skipped() {
    let src = r#"
module testmod.static_recv
type P { ro x int }
fn P.constant() -> int { 42 }
"#;
    let m = run_pass(src, FieldCacheConfig::default());
    let f = find_fn(&m, "constant");
    assert_eq!(count_prefix_lets(f), 0);
}

#[test]
fn free_fn_skipped() {
    let src = r#"
module testmod.free
type P { ro x int }
fn helper(p int) -> int { p + 1 }
"#;
    let m = run_pass(src, FieldCacheConfig::default());
    let f = find_fn(&m, "helper");
    assert_eq!(count_prefix_lets(f), 0);
}

#[test]
fn sum_type_receiver_skipped() {
    let src = r#"
module testmod.sum
type Maybe | None | Some(int)
fn Maybe @is_some() -> bool {
    match @ {
        Some(_) => true,
        None => false,
    }
}
"#;
    let parsed = parse(src);
    if let Ok(mut module) = parsed {
        cache_module(&mut module, &FieldCacheConfig::default());
    }
}

fn leading_let_names(f: &FnDecl) -> Vec<String> {
    if let FnBody::Block(b) = &f.body {
        b.stmts
            .iter()
            .take_while(|s| matches!(s, Stmt::Let(_)))
            .filter_map(|s| {
                if let Stmt::Let(d) = s {
                    if let Pattern::Ident { name, .. } = &d.pattern {
                        return Some(name.clone());
                    }
                }
                None
            })
            .collect()
    } else {
        vec![]
    }
}

#[test]
fn deterministic_ordering() {
    let src = r#"
module testmod.deterministic
type P { ro b int, ro a int, ro c int }
fn P @sum() -> int { @c + @b + @a + @c + @b + @a }
"#;
    let m1 = run_pass(src, FieldCacheConfig::default());
    let m2 = run_pass(src, FieldCacheConfig::default());
    let names1 = leading_let_names(find_fn(&m1, "sum"));
    let names2 = leading_let_names(find_fn(&m2, "sum"));
    assert_eq!(names1, names2);
    assert_eq!(names1, vec!["_at_a", "_at_b", "_at_c"]);
}

#[test]
fn v1_2_nested_then_block_with_internal_write_cached() {
    let src = r#"
module testmod.v1_2_then_internal_write
type C { mut x int }
fn C mut @do(cond bool) -> int {
mut acc = 0
if cond {
    ro a = @x
    ro b = @x
    @x = 99
    ro c = @x
    ro d = @x
    acc = a + b + c + d
}
acc
}
"#;
    let m = run_pass(src, FieldCacheConfig::default());
    let f = find_fn(&m, "do");
    let names = all_at_let_names_recursive(f);
    let nested: Vec<&String> = names.iter()
        .filter(|n| n.starts_with("_at_x_n")).collect();
    assert!(nested.len() >= 2,
        "expected >= 2 nested cache lets in then-block; got {:?}", names);
}

#[test]
fn v1_2_nested_else_branch_independent() {
    let src = r#"
module testmod.v1_2_else_independent
type C { mut x int }
fn C mut @do(cond bool) -> int {
if cond {
    @x = 1
    0
} else {
    ro a = @x
    ro b = @x
    a + b
}
}
"#;
    let m = run_pass(src, FieldCacheConfig::default());
    let f = find_fn(&m, "do");
    let names = all_at_let_names_recursive(f);
    let nested: Vec<&String> = names.iter()
        .filter(|n| n.starts_with("_at_x_n")).collect();
    assert!(!nested.is_empty(),
        "expected nested cache let in else-branch; got {:?}", names);
}

#[test]
fn v1_2_nested_while_body_with_internal_write() {
    let src = r#"
module testmod.v1_2_while_internal
type C { mut x int }
fn C mut @loop_io(n int) -> int {
mut i = 0
while i < n {
    ro a = @x
    ro b = @x
    @x = @x + 1
    i = i + 1
}
@x
}
"#;
    let m = run_pass(src, FieldCacheConfig::default());
    let f = find_fn(&m, "loop_io");
    let names = all_at_let_names_recursive(f);
    let nested: Vec<&String> = names.iter()
        .filter(|n| n.starts_with("_at_x_n")).collect();
    assert!(!nested.is_empty(),
        "expected nested cache let in while body; got {:?}", names);
}

#[test]
fn v1_2_nested_match_arm_body() {
    let src = r#"
module testmod.v1_2_match_arm
type C { mut x int }
fn C mut @do(tag int) -> int {
match tag {
    0 => {
        ro a = @x
        ro b = @x
        @x = 5
        ro c = @x
        ro d = @x
        a + b + c + d
    }
    _ => 0
}
}
"#;
    let m = run_pass(src, FieldCacheConfig::default());
    let f = find_fn(&m, "do");
    let names = all_at_let_names_recursive(f);
    let nested: Vec<&String> = names.iter()
        .filter(|n| n.starts_with("_at_x_n")).collect();
    assert!(nested.len() >= 2,
        "expected >= 2 nested cache lets in match arm 0 body; got {:?}", names);
}

#[test]
fn v1_2_ro_field_no_nested_duplicates() {
    let src = r#"
module testmod.v1_2_ro_no_nested
type C { ro x int, mut y int }
fn C mut @do(cond bool) -> int {
ro outer_a = @x
ro outer_b = @x
if cond {
    @y = 1
    ro inner_a = @x
    ro inner_b = @x
    outer_a + outer_b + inner_a + inner_b
} else {
    0
}
}
"#;
    let m = run_pass(src, FieldCacheConfig::default());
    let f = find_fn(&m, "do");
    let names = all_at_let_names_recursive(f);
    let x_caches: Vec<&String> = names.iter()
        .filter(|n| n.starts_with("_at_x")).collect();
    assert_eq!(x_caches.len(), 1,
        "ro x must emit exactly one cache let; got {:?}", names);
    assert!(!names.iter().any(|n| n.starts_with("_at_x_n")),
        "ro x must NOT get nested suffix; got {:?}", names);
}

#[test]
fn v1_2_nested_below_threshold_skipped() {
    let src = r#"
module testmod.v1_2_below_threshold_nested
type C { mut x int }
fn C mut @do(cond bool) -> int {
if cond {
    @x = 99
    ro a = @x
    a
} else {
    0
}
}
"#;
    let m = run_pass(src, FieldCacheConfig::default());
    let f = find_fn(&m, "do");
    let names = all_at_let_names_recursive(f);
    let nested: Vec<&String> = names.iter()
        .filter(|n| n.starts_with("_at_x_n")).collect();
    assert!(nested.is_empty(),
        "single-read nested region must NOT emit cache; got {:?}", names);
}

#[test]
fn v1_2_outer_and_nested_compose() {
    let src = r#"
module testmod.v1_2_compose
type C { mut x int }
fn C mut @do(cond bool) -> int {
ro top1 = @x
ro top2 = @x
if cond {
    @x = 50
    ro nested_a = @x
    ro nested_b = @x
    top1 + top2 + nested_a + nested_b
} else {
    top1 + top2
}
}
"#;
    let m = run_pass(src, FieldCacheConfig::default());
    let f = find_fn(&m, "do");
    let names = all_at_let_names_recursive(f);
    assert!(names.iter().any(|n| n == "_at_x"),
        "expected top-level _at_x; got {:?}", names);
    assert!(names.iter().any(|n| n.starts_with("_at_x_n")),
        "expected nested _at_x_n*; got {:?}", names);
}

#[test]
fn v1_2_budget_caps_nested() {
    let src = r#"
module testmod.v1_2_budget_nested
type C { mut x int }
fn C mut @do(cond bool) -> int {
if cond {
    ro a = @x
    ro b = @x
    @x = 1
    ro c = @x
    ro d = @x
    @x = 2
    ro e = @x
    ro f = @x
    a + b + c + d + e + f
} else {
    0
}
}
"#;
    let cfg = FieldCacheConfig {
        max_per_fn: 2,
        ..FieldCacheConfig::default()
    };
    let m = run_pass(src, cfg);
    let f = find_fn(&m, "do");
    let names = all_at_let_names_recursive(f);
    let all_x: Vec<&String> = names.iter()
        .filter(|n| n.starts_with("_at_x")).collect();
    assert!(all_x.len() <= 2,
        "budget=2 must cap total mut caches; got {:?}", names);
}

#[test]
fn v1_2_deeply_nested_if_in_while() {
    let src = r#"
module testmod.v1_2_deep_nest
type C { mut x int }
fn C mut @do(n int) -> int {
mut i = 0
while i < n {
    if i > 0 {
        ro a = @x
        ro b = @x
        @x = a + b
        ro c = @x
        ro d = @x
        i = i + c + d
    }
    i = i + 1
}
@x
}
"#;
    let m = run_pass(src, FieldCacheConfig::default());
    let f = find_fn(&m, "do");
    let names = all_at_let_names_recursive(f);
    let nested: Vec<&String> = names.iter()
        .filter(|n| n.starts_with("_at_x_n")).collect();
    assert!(!nested.is_empty(),
        "expected nested cache let in deeply-nested if-inside-while; got {:?}",
        names);
}

fn fn_prefix_lets(f: &FnDecl) -> Vec<String> {
    if let FnBody::Block(b) = &f.body {
        b.stmts.iter().take_while(|s| {
            matches!(s, Stmt::Let(d)
                if matches!(&d.pattern, Pattern::Ident { name, .. } if name.starts_with("_at_")))
        }).filter_map(|s| {
            if let Stmt::Let(d) = s {
                if let Pattern::Ident { name, .. } = &d.pattern { Some(name.clone()) } else { None }
            } else { None }
        }).collect()
    } else { vec![] }
}

#[test]
fn v42_shared_prefix_emitted_when_two_chains_share_prefix() {
    let src = r#"
module testmod.v42_shared
type Inner2 { ro c int, ro d int }
type Inner1 { ro b Inner2 }
type Outer { ro a Inner1 }
fn Outer @use_both() -> int {
@a.b.c + @a.b.c + @a.b.d + @a.b.d
}
"#;
    let m = run_pass(src, FieldCacheConfig::default());
    let f = find_fn(&m, "use_both");
    let names = fn_prefix_lets(f);
    assert!(names.iter().any(|n| n == "_at_a_b_pre"),
        "expected shared-prefix let _at_a_b_pre; got {:?}", names);
    assert!(names.iter().any(|n| n == "_at_a_b_c_chain"),
        "expected per-chain let _at_a_b_c_chain; got {:?}", names);
    assert!(names.iter().any(|n| n == "_at_a_b_d_chain"),
        "expected per-chain let _at_a_b_d_chain; got {:?}", names);
}


#[test]
fn v43_length3_shared_prefix_emitted() {
    let src = r#"
module testmod.v43_len3
type L { ro x int, ro y int }
type M { ro c L }
type N { ro b M }
type O { ro a N }
fn O @use_both() -> int {
@a.b.c.x + @a.b.c.x + @a.b.c.y + @a.b.c.y
}
"#;
    let m = run_pass(src, FieldCacheConfig::default());
    let f = find_fn(&m, "use_both");
    let names = fn_prefix_lets(f);
    assert!(names.iter().any(|n| n == "_at_a_b_pre"),
        "expected length-2 prefix let _at_a_b_pre; got {:?}", names);
    assert!(names.iter().any(|n| n == "_at_a_b_c_pre"),
        "expected length-3 prefix let _at_a_b_c_pre; got {:?}", names);
    assert!(names.iter().any(|n| n == "_at_a_b_c_x_chain"));
    assert!(names.iter().any(|n| n == "_at_a_b_c_y_chain"));
}

#[test]
fn v43_length3_prefix_references_length2_parent() {
    let src = r#"
module testmod.v43_parent_ref
type L { ro x int, ro y int }
type M { ro c L }
type N { ro b M }
type O { ro a N }
fn O @use_both() -> int {
@a.b.c.x + @a.b.c.x + @a.b.c.y + @a.b.c.y
}
"#;
    let m = run_pass(src, FieldCacheConfig::default());
    let f = find_fn(&m, "use_both");
    if let FnBody::Block(b) = &f.body {
        let stmt = b.stmts.iter().find(|s| match s {
            Stmt::Let(d) => matches!(&d.pattern,
                Pattern::Ident { name, .. } if name == "_at_a_b_c_pre"),
            _ => false,
        }).expect("`_at_a_b_c_pre` let not found");
        if let Stmt::Let(d) = stmt {
            if let ExprKind::Member { obj, name } = &d.value.kind {
                assert_eq!(name, "c", "expected member name 'c'; got {}", name);
                if let ExprKind::Ident(id) = &obj.kind {
                    assert_eq!(id, "_at_a_b_pre",
                        "expected ident parent _at_a_b_pre; got {}", id);
                } else {
                    panic!("expected Ident obj; got {:?}", obj.kind);
                }
            } else {
                panic!("expected Member value; got {:?}", d.value.kind);
            }
        }
    }
}

#[test]
fn v43_chain_let_uses_longest_prefix_cover() {
    let src = r#"
module testmod.v43_longest_cover
type L { ro x int, ro y int }
type M { ro c L }
type N { ro b M }
type O { ro a N }
fn O @use_both() -> int {
@a.b.c.x + @a.b.c.x + @a.b.c.y + @a.b.c.y
}
"#;
    let m = run_pass(src, FieldCacheConfig::default());
    let f = find_fn(&m, "use_both");
    if let FnBody::Block(b) = &f.body {
        let stmt = b.stmts.iter().find(|s| match s {
            Stmt::Let(d) => matches!(&d.pattern,
                Pattern::Ident { name, .. } if name == "_at_a_b_c_x_chain"),
            _ => false,
        }).expect("`_at_a_b_c_x_chain` let not found");
        if let Stmt::Let(d) = stmt {
            if let ExprKind::Member { obj, name } = &d.value.kind {
                assert_eq!(name, "x");
                if let ExprKind::Ident(id) = &obj.kind {
                    assert_eq!(id, "_at_a_b_c_pre",
                        "expected ident _at_a_b_c_pre (longest cover); got {}", id);
                } else { panic!("expected Ident obj"); }
            } else { panic!("expected Member value"); }
        }
    }
}

#[test]
fn v43_no_deep_prefix_when_only_one_chain_at_depth3() {
    let src = r#"
module testmod.v43_only_l2
type L { ro x int, ro y int, ro z int }
type Mid { ro c L, ro d L, ro e L }
type Inn { ro b Mid }
type Out { ro a Inn }
fn Out @use_three() -> int {
@a.b.c.x + @a.b.c.x + @a.b.d.y + @a.b.d.y + @a.b.e.z + @a.b.e.z
}
"#;
    let m = run_pass(src, FieldCacheConfig::default());
    let f = find_fn(&m, "use_three");
    let names = fn_prefix_lets(f);
    assert!(names.iter().any(|n| n == "_at_a_b_pre"),
        "expected _at_a_b_pre; got {:?}", names);
    assert!(!names.iter().any(|n| n == "_at_a_b_c_pre"),
        "must NOT emit length-3 prefix (only 1 chain through _.c); got {:?}",
        names);
    assert!(!names.iter().any(|n| n == "_at_a_b_d_pre"));
    assert!(!names.iter().any(|n| n == "_at_a_b_e_pre"));
}

#[test]
fn v43_length4_prefix_chains_through_parents() {
    let src = r#"
module testmod.v43_len4
type Leaf { ro e int, ro f int }
type L4 { ro d Leaf }
type L3 { ro c L4 }
type L2 { ro b L3 }
type L1 { ro a L2 }
fn L1 @use_both() -> int {
@a.b.c.d.e + @a.b.c.d.e + @a.b.c.d.f + @a.b.c.d.f
}
"#;
    let mut cfg = FieldCacheConfig::default();
    cfg.chain_max_depth = 6;
    cfg.max_per_fn = 16;
    let m = run_pass(src, cfg);
    let f = find_fn(&m, "use_both");
    let names = fn_prefix_lets(f);
    assert!(names.iter().any(|n| n == "_at_a_b_pre"),
        "expected _at_a_b_pre; got {:?}", names);
    assert!(names.iter().any(|n| n == "_at_a_b_c_pre"),
        "expected _at_a_b_c_pre; got {:?}", names);
    assert!(names.iter().any(|n| n == "_at_a_b_c_d_pre"),
        "expected _at_a_b_c_d_pre; got {:?}", names);
    if let FnBody::Block(b) = &f.body {
        let stmt = b.stmts.iter().find(|s| match s {
            Stmt::Let(d) => matches!(&d.pattern,
                Pattern::Ident { name, .. } if name == "_at_a_b_c_d_pre"),
            _ => false,
        }).expect("`_at_a_b_c_d_pre` let not found");
        if let Stmt::Let(d) = stmt {
            if let ExprKind::Member { obj, name } = &d.value.kind {
                assert_eq!(name, "d");
                if let ExprKind::Ident(id) = &obj.kind {
                    assert_eq!(id, "_at_a_b_c_pre",
                        "length-4 prefix must reference length-3 parent");
                } else { panic!("expected Ident parent ref"); }
            } else { panic!("expected Member value"); }
        }
    }
}

#[test]
fn v43_emission_order_shorter_first() {
    let src = r#"
module testmod.v43_order
type Leaf { ro e int, ro f int }
type L4 { ro d Leaf }
type L3 { ro c L4 }
type L2 { ro b L3 }
type L1 { ro a L2 }
fn L1 @use_both() -> int {
@a.b.c.d.e + @a.b.c.d.e + @a.b.c.d.f + @a.b.c.d.f
}
"#;
    let mut cfg = FieldCacheConfig::default();
    cfg.chain_max_depth = 6;
    cfg.max_per_fn = 16;
    let m = run_pass(src, cfg);
    let f = find_fn(&m, "use_both");
    if let FnBody::Block(b) = &f.body {
        let positions: Vec<(String, usize)> = b.stmts.iter()
            .enumerate()
            .filter_map(|(i, s)| match s {
                Stmt::Let(d) => match &d.pattern {
                    Pattern::Ident { name, .. } if name.ends_with("_pre")
                        => Some((name.clone(), i)),
                    _ => None,
                },
                _ => None,
            })
            .collect();
        let l2 = positions.iter().find(|(n, _)| n == "_at_a_b_pre")
            .expect("_at_a_b_pre").1;
        let l3 = positions.iter().find(|(n, _)| n == "_at_a_b_c_pre")
            .expect("_at_a_b_c_pre").1;
        let l4 = positions.iter().find(|(n, _)| n == "_at_a_b_c_d_pre")
            .expect("_at_a_b_c_d_pre").1;
        assert!(l2 < l3, "length-2 must precede length-3");
        assert!(l3 < l4, "length-3 must precede length-4");
    }
}

#[test]
fn v42_no_shared_prefix_when_single_chain() {
    let src = r#"
module testmod.v42_single
type Inner2 { ro c int }
type Inner1 { ro b Inner2 }
type Outer { ro a Inner1 }
fn Outer @use_single() -> int {
@a.b.c + @a.b.c + @a.b.c
}
"#;
    let m = run_pass(src, FieldCacheConfig::default());
    let f = find_fn(&m, "use_single");
    let names = fn_prefix_lets(f);
    assert!(names.iter().all(|n| !n.ends_with("_pre")),
        "no _pre let should emit when only single chain; got {:?}", names);
    assert!(names.iter().any(|n| n == "_at_a_b_c_chain"),
        "expected per-chain let; got {:?}", names);
}

#[test]
fn v62_cpu_savings_estimate_aggregates_layers() {
    let src = r#"
module testmod.v62
type Point { ro x int, ro y int }
fn Point @sum_squared() -> int { @x * @x + @y * @y }
"#;
    let module = parse(src).expect("parse");
    let cfg = FieldCacheConfig::default();
    let report = analyze_module(module, &cfg);
    let savings = cpu_savings_estimate(&report, &CycleWeights::standard());
    assert!(savings.estimated_cycles_saved > 0, "expected non-zero savings; got {:?}", savings);
    assert!(savings.layer_ro > 0, "ro layer should contribute");
    assert_eq!(savings.methods_with_savings, 1);
}

#[test]
fn explain_reports_mut_field_as_mut_cache() {
    let src = r#"
module testmod.v1_1_single
type C { mut x int }
fn C mut @do() -> int {
    ro a = @x
    ro b = @x
    a + b
}
"#;
    let module = parse(src).expect("parse");
    let report = analyze_module(module, &FieldCacheConfig::default());
    assert_eq!(report.per_fn.len(), 1);
    assert_eq!(report.per_fn[0].fn_name, "do");
    assert_eq!(report.per_fn[0].mut_caches, vec!["x".to_string()]);
    assert!(report.per_fn[0].ro_caches.is_empty());
}

#[test]
fn explain_reports_ro_field_as_ro_cache() {
    let src = r#"
module testmod.v62_ro
type Point { ro x int, ro y int }
fn Point @sum_squared() -> int { @x * @x + @y * @y }
"#;
    let module = parse(src).expect("parse");
    let report = analyze_module(module, &FieldCacheConfig::default());
    assert_eq!(report.per_fn.len(), 1);
    assert_eq!(report.per_fn[0].receiver_type, "Point");
    assert_eq!(report.per_fn[0].ro_caches, vec!["x".to_string(), "y".to_string()]);
    assert!(report.per_fn[0].mut_caches.is_empty());
}

#[test]
fn v62_cpu_savings_estimate_empty_report() {
    let report = ExplainReport { per_fn: Vec::new() };
    let savings = cpu_savings_estimate(&report, &CycleWeights::standard());
    assert_eq!(savings.estimated_cycles_saved, 0);
    assert_eq!(savings.methods_with_savings, 0);
}

#[test]
fn chain_cache_replaces_occurrences_and_reads_once() {
    let src = r#"
module testmod.chain_exact
type Inner { ro c int }
type Outer { ro a Inner }
fn Outer @twice() -> int {
    @a.c + @a.c
}
"#;
    let m = run_pass(src, FieldCacheConfig::default());
    let f = find_fn(&m, "twice");
    let FnBody::Block(b) = &f.body else { panic!("expected block body") };
    assert_eq!(b.stmts.len(), 1);
    match &b.stmts[0] {
        Stmt::Let(d) => {
            assert!(matches!(&d.pattern, Pattern::Ident { name, .. } if name == "_at_a_c_chain"));
            match &d.value.kind {
                ExprKind::Member { obj, name } => {
                    assert_eq!(name, "c");
                    assert!(matches!(&obj.kind, ExprKind::Member { obj: o, name: n } if n == "a" && matches!(o.kind, ExprKind::SelfAccess)));
                },
                k => panic!("unexpected value {:?}", k),
            }
        },
        s => panic!("unexpected stmt {:?}", s),
    }
    match &b.trailing.as_ref().expect("trailing").kind {
        ExprKind::Binary { left, right, .. } => {
            assert!(matches!(&left.kind, ExprKind::Ident(n) if n == "_at_a_c_chain"));
            assert!(matches!(&right.kind, ExprKind::Ident(n) if n == "_at_a_c_chain"));
        },
        k => panic!("unexpected trailing {:?}", k),
    }
}

#[test]
fn chain_not_cached_when_read_in_closure() {
    let src = r#"
module testmod.chain_closure
type Inner { ro c int }
type Outer { ro a Inner }
fn Outer @f() -> int {
    ro g = || @a.c
    @a.c + @a.c
}
"#;
    let m = run_pass(src, FieldCacheConfig::default());
    let f = find_fn(&m, "f");
    let names = all_at_let_names_recursive(f);
    assert!(!names.iter().any(|n| n.ends_with("_chain")), "chain read in a closure must not be cached; got {:?}", names);
}

#[test]
fn chain_not_cached_when_segment_written() {
    let src = r#"
module testmod.chain_written
type Inner { mut c int }
type Outer { mut a Inner }
fn Outer mut @f(v Inner) -> int {
    ro x = @a.c + @a.c
    @a = v
    x
}
"#;
    let m = run_pass(src, FieldCacheConfig::default());
    let f = find_fn(&m, "f");
    let names = all_at_let_names_recursive(f);
    assert!(!names.iter().any(|n| n.ends_with("_chain")), "chain under a written root must not be cached; got {:?}", names);
}

#[test]
fn nested_locals_numbered_across_blocks() {
    let src = r#"
module testmod.nested_numbering
type C { mut x int }
fn C mut @do(cond bool) -> int {
    if cond {
        ro a = @x
        ro b = @x
        @x = 1
        ro c = @x
        ro d = @x
        a + b + c + d
    } else {
        @x = 2
        0
    }
}
"#;
    let m = run_pass(src, FieldCacheConfig::default());
    let f = find_fn(&m, "do");
    let names = all_at_let_names_recursive(f);
    assert_eq!(names, vec!["_at_x_n0".to_string(), "_at_x_n1".to_string()]);
}


#[test]
fn licm_hoists_invariant_field_read_before_loop() {
    let src = r#"
module testmod.licm_basic
type C { ro k int }
fn C @sum(n int) -> int {
    mut i = 0
    mut acc = 0
    while i < n {
        acc = acc + @k * @k
        i = i + 1
    }
    acc
}
"#;
    let m = run_pass(src, FieldCacheConfig::default());
    let f = find_fn(&m, "sum");
    let FnBody::Block(b) = &f.body else { panic!("expected block body") };
    assert_eq!(b.stmts.len(), 4, "two lets, the hoisted let and the loop; got {:?}", b.stmts);
    match &b.stmts[2] {
        Stmt::Let(d) => {
            assert!(matches!(&d.pattern, Pattern::Ident { name, .. } if name == "_at_k_loop"));
            assert!(matches!(&d.value.kind, ExprKind::Member { obj, name } if name == "k" && matches!(obj.kind, ExprKind::SelfAccess)));
        },
        s => panic!("expected hoisted let, got {:?}", s),
    }
    let names = all_at_let_names_recursive(f);
    assert_eq!(names, vec!["_at_k_loop".to_string()]);
    match &b.stmts[3] {
        Stmt::Expr(e) => match &e.kind {
            ExprKind::While { body, .. } => match &body.stmts[0] {
                Stmt::Assign { value, .. } => match &value.kind {
                    ExprKind::Binary { right, .. } => match &right.kind {
                        ExprKind::Binary { left, right, .. } => {
                            assert!(matches!(&left.kind, ExprKind::Ident(n) if n == "_at_k_loop"));
                            assert!(matches!(&right.kind, ExprKind::Ident(n) if n == "_at_k_loop"));
                        },
                        k => panic!("unexpected {:?}", k),
                    },
                    k => panic!("unexpected {:?}", k),
                },
                s => panic!("unexpected {:?}", s),
            },
            k => panic!("expected loop, got {:?}", k),
        },
        s => panic!("expected loop stmt, got {:?}", s),
    }
}

#[test]
fn licm_skips_field_written_in_loop() {
    let src = r#"
module testmod.licm_written
type C { mut k int }
fn C mut @run(n int) -> int {
    mut i = 0
    while i < n {
        i = i + @k + @k
        @k = i
    }
    i
}
"#;
    let m = run_pass(src, FieldCacheConfig::default());
    let f = find_fn(&m, "run");
    let names = all_at_let_names_recursive(f);
    assert!(!names.iter().any(|n| n.ends_with("_loop")), "written field must not be hoisted; got {:?}", names);
}

#[test]
fn licm_skips_mut_field_when_loop_calls_unknown_method() {
    let src = r#"
module testmod.licm_call
type C { mut k int }
fn C mut @run(n int) -> int {
    mut i = 0
    while i < n {
        i = i + @k + @k
        touch(i)
    }
    i
}
"#;
    let m = run_pass(src, FieldCacheConfig::default());
    let f = find_fn(&m, "run");
    let names = all_at_let_names_recursive(f);
    assert!(!names.iter().any(|n| n.ends_with("_loop")), "a call that may write the field blocks hoisting; got {:?}", names);
}

#[test]
fn licm_off_leaves_loop_alone() {
    let src = r#"
module testmod.licm_off
type C { ro k int }
fn C @sum(n int) -> int {
    mut i = 0
    while i < n {
        i = i + @k + @k
    }
    i
}
"#;
    let mut cfg = FieldCacheConfig::default();
    cfg.licm_enabled = false;
    let m = run_pass(src, cfg);
    let f = find_fn(&m, "sum");
    let names = all_at_let_names_recursive(f);
    assert!(!names.iter().any(|n| n.ends_with("_loop")), "got {:?}", names);
}

fn let_names(f: &FnDecl) -> Vec<String> {
    let mut out = Vec::new();
    if let FnBody::Block(b) = &f.body {
        for st in &b.stmts {
            if let Stmt::Let(d) = st {
                if let Pattern::Ident { name, .. } = &d.pattern {
                    out.push(name.clone());
                }
            }
        }
    }
    out
}

#[test]
fn pure_call_made_twice_is_cached() {
    let src = r#"
module testmod.pure_basic
type C { ro x int }
pure fn C @get() -> int { @x }
fn C @twice() -> int {
    @get() + @get()
}
"#;
    let m = run_pass(src, FieldCacheConfig::default());
    let f = find_fn(&m, "twice");
    let FnBody::Block(b) = &f.body else { panic!("expected block body") };
    assert_eq!(b.stmts.len(), 1);
    match &b.stmts[0] {
        Stmt::Let(d) => {
            assert!(matches!(&d.pattern, Pattern::Ident { name, .. } if name == "_at_get_call"));
            match &d.value.kind {
                ExprKind::Call { func, args } => {
                    assert!(args.is_empty());
                    assert!(matches!(&func.kind, ExprKind::Member { obj, name } if name == "get" && matches!(obj.kind, ExprKind::SelfAccess)));
                },
                k => panic!("unexpected value {:?}", k),
            }
        },
        st => panic!("unexpected stmt {:?}", st),
    }
    match &b.trailing.as_ref().expect("trailing").kind {
        ExprKind::Binary { left, right, .. } => {
            assert!(matches!(&left.kind, ExprKind::Ident(n) if n == "_at_get_call"));
            assert!(matches!(&right.kind, ExprKind::Ident(n) if n == "_at_get_call"));
        },
        k => panic!("unexpected trailing {:?}", k),
    }
}

#[test]
fn pure_call_keyed_by_literal_arguments() {
    let src = r#"
module testmod.pure_args
type C { ro x int }
pure fn C @at(i int) -> int { @x + i }
fn C @f() -> int {
    @at(1) + @at(1) + @at(2)
}
"#;
    let m = run_pass(src, FieldCacheConfig::default());
    let f = find_fn(&m, "f");
    assert_eq!(let_names(f), vec!["_at_at_1i_call".to_string()]);
    let FnBody::Block(b) = &f.body else { panic!("expected block body") };
    match &b.stmts[0] {
        Stmt::Let(d) => match &d.value.kind {
            ExprKind::Call { args, .. } => {
                assert_eq!(args.len(), 1);
                assert!(matches!(args[0].kind, ExprKind::IntLit(1)));
            },
            k => panic!("unexpected value {:?}", k),
        },
        st => panic!("unexpected stmt {:?}", st),
    }
}

#[test]
fn pure_call_in_closure_not_cached() {
    let src = r#"
module testmod.pure_closure
type C { ro x int }
pure fn C @get() -> int { @x }
fn C @f() -> int {
    ro g = || @get()
    @get() + @get()
}
"#;
    let m = run_pass(src, FieldCacheConfig::default());
    let f = find_fn(&m, "f");
    assert!(!let_names(f).iter().any(|n| n.ends_with("_call")), "got {:?}", let_names(f));
}

#[test]
fn pure_call_cached_when_body_writes_unread_field() {
    let src = r#"
module testmod.pure_frame
type C { mut x int, mut y int }
pure fn C @get() -> int { @x }
fn C mut @f() -> int {
    @y = 1
    @get() + @get()
}
fn C mut @g() -> int {
    @x = 1
    @get() + @get()
}
"#;
    let m = run_pass(src, FieldCacheConfig::default());
    assert!(let_names(find_fn(&m, "f")).contains(&"_at_get_call".to_string()));
    assert!(!let_names(find_fn(&m, "g")).iter().any(|n| n.ends_with("_call")));
}

#[test]
fn pure_call_not_cached_on_any_write_without_read_sets() {
    let src = r#"
module testmod.pure_noipa
type C { mut x int, mut y int }
pure fn C @get() -> int { @x }
fn C mut @f() -> int {
    @y = 1
    @get() + @get()
}
"#;
    let mut cfg = FieldCacheConfig::default();
    cfg.ipa_enabled = false;
    let m = run_pass(src, cfg);
    assert!(!let_names(find_fn(&m, "f")).iter().any(|n| n.ends_with("_call")));
}

#[test]
fn pure_call_local_avoids_taken_name() {
    let src = r#"
module testmod.pure_names
type C { ro x int }
pure fn C @get() -> int { @x }
fn C @f() -> int {
    ro _at_get_call = 3
    @get() + @get() + _at_get_call
}
"#;
    let m = run_pass(src, FieldCacheConfig::default());
    assert_eq!(let_names(find_fn(&m, "f"))[0], "_at_get_call_1");
}

#[test]
fn pure_caching_off_leaves_calls() {
    let src = r#"
module testmod.pure_off
type C { ro x int }
pure fn C @get() -> int { @x }
fn C @twice() -> int {
    @get() + @get()
}
"#;
    let mut cfg = FieldCacheConfig::default();
    cfg.pure_enabled = false;
    let m = run_pass(src, cfg);
    assert!(let_names(find_fn(&m, "twice")).is_empty());
}

fn fields_of(ws: &WriteSets, t: &str, m: &str) -> Option<Vec<String>> {
    ws.entries.iter().rev().find(|e| e.owner_type == t && e.method == m).map(|e| {
        let mut v = e.fields.clone();
        v.sort();
        v.dedup();
        v
    })
}

const CALLER_SRC: &str = r#"
module testmod.sets_cache
type C { mut x int, mut y int }
fn C mut @bump_x() -> () { @x = @x + 1 }
fn C mut @do() -> () {
    @bump_x()
    @y = 2
}
"#;

#[test]
fn write_sets_cache_off_leaves_cache_alone() {
    let m = parse(CALLER_SRC).expect("parse");
    let mut cache = ScCache::new();
    let ws = module_write_sets_cached(&m, &mut cache, false);
    assert_eq!((cache.hits, cache.misses), (0, 0));
    let plain = module_write_sets(&m);
    assert_eq!(fields_of(&ws, "C", "do"), fields_of(&plain, "C", "do"));
    assert_eq!(fields_of(&ws, "C", "do"), Some(vec!["x".to_string(), "y".to_string()]));
    assert_eq!(fields_of(&ws, "C", "bump_x"), Some(vec!["x".to_string()]));
}

#[test]
fn write_sets_cache_miss_then_hit() {
    let m = parse(CALLER_SRC).expect("parse");
    let mut cache = ScCache::new();
    let first = module_write_sets_cached(&m, &mut cache, true);
    assert_eq!((cache.hits, cache.misses), (0, 1));
    let second = module_write_sets_cached(&m, &mut cache, true);
    assert_eq!((cache.hits, cache.misses), (1, 1));
    assert_eq!(fields_of(&first, "C", "do"), Some(vec!["x".to_string(), "y".to_string()]));
    assert_eq!(fields_of(&second, "C", "do"), fields_of(&first, "C", "do"));
    assert_eq!(fields_of(&second, "C", "bump_x"), Some(vec!["x".to_string()]));
}

#[test]
fn write_sets_cache_other_module_misses() {
    let m1 = parse(CALLER_SRC).expect("parse");
    let m2 = parse("module testmod.other\ntype D { mut z int }\nfn D mut @set_z() -> () { @z = 1 }\n").expect("parse");
    let mut cache = ScCache::new();
    module_write_sets_cached(&m1, &mut cache, true);
    let ws2 = module_write_sets_cached(&m2, &mut cache, true);
    assert_eq!((cache.hits, cache.misses), (0, 2));
    assert_eq!(fields_of(&ws2, "D", "set_z"), Some(vec!["z".to_string()]));
    assert_eq!(fields_of(&ws2, "C", "do"), None);
}

#[test]
fn read_sets_cache_counts_separately() {
    let m = parse(CALLER_SRC).expect("parse");
    let mut cache = ScCache::new();
    module_read_sets_cached(&m, &mut cache, true);
    module_read_sets_cached(&m, &mut cache, true);
    assert_eq!((cache.hits, cache.misses), (1, 1));
}

#[test]
fn scc_cache_setting_values() {
    for v in ["1", "on", "true", "True", "TRUE"] {
        assert!(scc_cache_enabled(Some(v)), "{} should turn the cache on", v);
    }
    for v in ["0", "off", "yes", "tRUE", ""] {
        assert!(!scc_cache_enabled(Some(v)), "{} should not turn the cache on", v);
    }
    assert!(!scc_cache_enabled(None));
}

#[test]
fn cycle_weights_take_positive_settings_only() {
    let w = CycleWeights::from_settings(&Some("10".to_string()), &Some("0".to_string()), &Some("many".to_string()));
    assert_eq!((w.load_cycles, w.call_cycles, w.loop_iters), (10, 40, 8));
    let d = CycleWeights::from_settings(&None, &None, &None);
    assert_eq!(d, CycleWeights::standard());
    let all = CycleWeights::from_settings(&Some("+3".to_string()), &Some("7".to_string()), &Some("2".to_string()));
    assert_eq!((all.load_cycles, all.call_cycles, all.loop_iters), (3, 7, 2));
}

#[test]
fn licm_hoists_invariant_field_read_before_for_loop() {
    let src = r#"
module testmod.licm_for
type C { ro k int }
fn C @sum(xs int) -> int {
    mut acc = 0
    for x in xs {
        acc = acc + @k * @k + x
    }
    acc
}
"#;
    let m = run_pass(src, FieldCacheConfig::default());
    let f = find_fn(&m, "sum");
    let FnBody::Block(b) = &f.body else { panic!("expected block body") };
    assert_eq!(b.stmts.len(), 3, "the let, the hoisted let and the loop; got {:?}", b.stmts);
    match &b.stmts[1] {
        Stmt::Let(d) => {
            assert!(matches!(&d.pattern, Pattern::Ident { name, .. } if name == "_at_k_loop"));
            assert!(matches!(&d.value.kind, ExprKind::Member { obj, name } if name == "k" && matches!(obj.kind, ExprKind::SelfAccess)));
        },
        s => panic!("expected hoisted let, got {:?}", s),
    }
    match &b.stmts[2] {
        Stmt::Expr(e) => match &e.kind {
            ExprKind::For { var, body, .. } => {
                assert_eq!(var, "x");
                let shown = format!("{:?}", body);
                assert!(shown.contains("_at_k_loop"), "the body reads the hoisted local: {}", shown);
                assert!(!shown.contains("SelfAccess"), "the body no longer reads the field: {}", shown);
            },
            k => panic!("expected for loop, got {:?}", k),
        },
        s => panic!("expected loop stmt, got {:?}", s),
    }
    assert_eq!(all_at_let_names_recursive(f), vec!["_at_k_loop".to_string()]);
}

#[test]
fn licm_hoists_out_of_loop_forever() {
    let src = r#"
module testmod.licm_loop
type C { ro k int }
fn C @spin() -> int {
    mut acc = 0
    loop {
        acc = acc + @k * @k
    }
    acc
}
"#;
    let m = run_pass(src, FieldCacheConfig::default());
    let f = find_fn(&m, "spin");
    assert_eq!(all_at_let_names_recursive(f), vec!["_at_k_loop".to_string()]);
}

#[test]
fn licm_name_avoids_for_loop_variable() {
    let src = r#"
module testmod.licm_for_name
type C { ro k int }
fn C @sum(xs int) -> int {
    mut acc = 0
    for _at_k_loop in xs {
        acc = acc + @k * @k + _at_k_loop
    }
    acc
}
"#;
    let m = run_pass(src, FieldCacheConfig::default());
    let f = find_fn(&m, "sum");
    assert_eq!(all_at_let_names_recursive(f), vec!["_at_k_loop_1".to_string()]);
}

#[test]
fn licm_hoists_out_of_while_let_and_avoids_its_bindings() {
    let src = r#"
module testmod.licm_while_let
type C { ro k int }
fn C @drain(q int) -> int {
    mut acc = 0
    while let Some(_at_k_loop) = q {
        acc = acc + @k * @k + _at_k_loop
    }
    acc
}
"#;
    let m = run_pass(src, FieldCacheConfig::default());
    let f = find_fn(&m, "drain");
    let FnBody::Block(b) = &f.body else { panic!("expected block body") };
    assert_eq!(b.stmts.len(), 3, "the let, the hoisted let and the loop; got {:?}", b.stmts);
    assert!(matches!(&b.stmts[2], Stmt::Expr(e) if matches!(e.kind, ExprKind::WhileLet { .. })));
    assert_eq!(all_at_let_names_recursive(f), vec!["_at_k_loop_1".to_string()]);
}

/// Turns the `for` loops at the top of each method body into parallel ones.
fn make_loops_parallel(module: &mut Module) {
    for item in &mut module.items {
        if let Item::Fn(f) = item {
            if let FnBody::Block(b) = &mut f.body {
                for s in &mut b.stmts {
                    if let Stmt::Expr(e) = s {
                        let kind = std::mem::replace(&mut e.kind, ExprKind::UnitLit);
                        e.kind = match kind {
                            ExprKind::For { var, iter, body } => ExprKind::ParallelFor { var, iter, body },
                            k => k,
                        };
                    }
                }
            }
        }
    }
}

#[test]
fn licm_leaves_parallel_loop_bodies_alone() {
    let src = r#"
module testmod.licm_parallel
type C { ro k int }
fn C @sum(xs int) -> int {
    mut acc = 0
    for x in xs {
        acc = acc + @k * @k + x
    }
    acc
}
"#;
    let mut module = parse(src).expect("parse");
    make_loops_parallel(&mut module);
    let cfg = FieldCacheConfig { licm_enabled: true, ..FieldCacheConfig::default() };
    cache_module(&mut module, &cfg);
    let f = find_fn(&module, "sum");
    let names = all_at_let_names_recursive(f);
    assert!(!names.iter().any(|n| n.ends_with("_loop")), "no hoist out of a parallel loop; got {:?}", names);
    let FnBody::Block(b) = &f.body else { panic!("expected block body") };
    assert!(b.stmts.iter().any(|s| matches!(s, Stmt::Expr(e) if matches!(e.kind, ExprKind::ParallelFor { .. }))));
}

#[test]
fn reads_under_if_let_are_cached_and_its_bindings_avoided() {
    let src = r#"
module testmod.if_let
type C { ro x int }
fn C @pick(o int) -> int {
    if let Some(_at_x) = o {
        @x + @x + _at_x
    } else {
        @x
    }
}
"#;
    let m = run_pass(src, FieldCacheConfig::default());
    let f = find_fn(&m, "pick");
    let names = all_at_let_names(f);
    assert_eq!(names.len(), 1, "one cache for the field; got {:?}", names);
    assert_ne!(names[0], "_at_x", "the cache avoids the name the pattern binds");
    let shown = format!("{:?}", f.body);
    assert!(shown.contains("IfLet"), "the `if let` stays: {}", shown);
}

#[test]
fn reads_inside_try_count_and_are_rewritten() {
    let src = r#"
module testmod.try_reads
type C { ro x int }
fn C @f() -> int {
    check(@x)? + @x + @x
}
"#;
    let m = run_pass(src, FieldCacheConfig::default());
    let f = find_fn(&m, "f");
    assert_eq!(all_at_let_names(f), vec!["_at_x".to_string()]);
    let shown = format!("{:?}", f.body);
    assert!(shown.contains("Try"), "the `?` stays: {}", shown);
    assert!(!shown.contains("SelfAccess") || shown.matches("SelfAccess").count() == 1,
        "only the cache's own read stays: {}", shown);
}
