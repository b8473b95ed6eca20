//! Boolean scans of method bodies: closure captures, writes, and calls
//! that may change a field.

use vstd::prelude::*;
use crate::ast::{Block, ElseBranch, Expr, ExprKind, MatchArm, MatchArmBody, RecordLitField, Stmt};
use crate::field_cache::reads::{self_field, self_field_of};
use crate::field_cache::ipa::{call_invalidates_field, call_may_write, IpaView, WriteSets};
use crate::text::str_eq;

verus! {

/// The receiver context of a call check: field sets and receiver type.
pub open spec fn ipa_view(ipa: Option<(&WriteSets, &str)>) -> Option<IpaView> {
    match ipa {
        Some((ws, t)) => Some(IpaView { entries: ws.entries@, recv: t@ }),
        None => None,
    }
}

/// Some `@f` occurs in `e`, closures and assignment targets included.
pub open spec fn mentions_expr(e: Expr, f: Seq<char>) -> bool
    decreases e, 0int,
{
    match self_field_of(e) {
        Some(g) => g == f,
        None => match e.kind {
            ExprKind::Member { obj, .. } => mentions_expr(*obj, f),
            ExprKind::Call { func, args } => mentions_expr(*func, f) || mentions_exprs(args, args.len() as int, f),
            ExprKind::Binary { left, right, .. } => mentions_expr(*left, f) || mentions_expr(*right, f),
            ExprKind::Unary { operand, .. } => mentions_expr(*operand, f),
            ExprKind::Index { obj, index } => mentions_expr(*obj, f) || mentions_expr(*index, f),
            ExprKind::If { cond, then, else_ } | ExprKind::IfLet { scrutinee: cond, then, else_, .. } => mentions_expr(*cond, f) || mentions_block(then, f) || match else_ {
                Some(ElseBranch::Block(b)) => mentions_block(b, f),
                Some(ElseBranch::If(x)) => mentions_expr(*x, f),
                None => false,
            },
            ExprKind::While { cond, body } | ExprKind::WhileLet { scrutinee: cond, body, .. } | ExprKind::For { iter: cond, body, .. } | ExprKind::ParallelFor { iter: cond, body, .. } => mentions_expr(*cond, f) || mentions_block(body, f),
            ExprKind::Match { scrutinee, arms } => mentions_expr(*scrutinee, f) || mentions_arms(arms, arms.len() as int, f),
            ExprKind::Block(b) => mentions_block(b, f),
            ExprKind::Lambda { body, .. } => mentions_expr(*body, f),
            ExprKind::Spawn(x) | ExprKind::NamedArg { value: x, .. } | ExprKind::Try(x) => mentions_expr(*x, f),
            ExprKind::TupleLit(items) | ExprKind::ArrayLit(items) => mentions_exprs(items, items.len() as int, f),
            ExprKind::RecordLit { fields, .. } => mentions_fields(fields, fields.len() as int, f),
            _ => false,
        },
    }
}

pub open spec fn mentions_exprs(v: Vec<Expr>, k: int, f: Seq<char>) -> bool
    decreases v, k,
{
    if k <= 0 || k > v.len() { false } else { mentions_exprs(v, k - 1, f) || mentions_expr(v[k - 1], f) }
}

pub open spec fn mentions_fields(v: Vec<RecordLitField>, k: int, f: Seq<char>) -> bool
    decreases v, k,
{
    if k <= 0 || k > v.len() {
        false
    } else {
        mentions_fields(v, k - 1, f) || match v[k - 1].value {
            Some(x) => mentions_expr(x, f),
            None => false,
        }
    }
}

pub open spec fn mentions_arms(v: Vec<MatchArm>, k: int, f: Seq<char>) -> bool
    decreases v, k,
{
    if k <= 0 || k > v.len() {
        false
    } else {
        mentions_arms(v, k - 1, f) || match v[k - 1].body {
            MatchArmBody::Expr(x) => mentions_expr(x, f),
            MatchArmBody::Block(b) => mentions_block(b, f),
        }
    }
}

pub open spec fn mentions_block(b: Block, f: Seq<char>) -> bool
    decreases b, 0int,
{
    mentions_stmts(b.stmts, b.stmts.len() as int, f) || match b.trailing {
        Some(t) => mentions_expr(*t, f),
        None => false,
    }
}

pub open spec fn mentions_stmts(v: Vec<Stmt>, k: int, f: Seq<char>) -> bool
    decreases v, k,
{
    if k <= 0 || k > v.len() { false } else { mentions_stmts(v, k - 1, f) || mentions_stmt(v[k - 1], f) }
}

pub open spec fn mentions_stmt(s: Stmt, f: Seq<char>) -> bool
    decreases s, 0int,
{
    match s {
        Stmt::Let(d) => mentions_expr(d.value, f),
        Stmt::Assign { target, value, .. } => mentions_expr(target, f) || mentions_expr(value, f),
        Stmt::Expr(x) => mentions_expr(x, f),
        Stmt::Return { value, .. } => match value {
            Some(x) => mentions_expr(x, f),
            None => false,
        },
        _ => false,
    }
}

/// Executable form of `mentions_expr`.
pub fn mentions_in_expr(e: &Expr, f: &str) -> (r: bool)
    ensures
        r == mentions_expr(*e, f@),
    decreases e, 0int,
{
    if let Some(g) = self_field(e) {
        return str_eq(g.as_str(), f);
    }
    match &e.kind {
        ExprKind::Member { obj, .. } => mentions_in_expr(obj, f),
        ExprKind::Call { func, args } => {
            mentions_in_expr(func, f) || mentions_in_exprs(args, f)
        },
        ExprKind::Binary { left, right, .. } => mentions_in_expr(left, f) || mentions_in_expr(right, f),
        ExprKind::Unary { operand, .. } => mentions_in_expr(operand, f),
        ExprKind::Index { obj, index } => mentions_in_expr(obj, f) || mentions_in_expr(index, f),
        ExprKind::If { cond, then, else_ } | ExprKind::IfLet { scrutinee: cond, then, else_, .. } => {
            if mentions_in_expr(cond, f) || mentions_in_block(then, f) {
                true
            } else {
                match else_ {
                    Some(ElseBranch::Block(b)) => mentions_in_block(b, f),
                    Some(ElseBranch::If(x)) => mentions_in_expr(x, f),
                    None => false,
                }
            }
        },
        ExprKind::While { cond, body } | ExprKind::WhileLet { scrutinee: cond, body, .. } | ExprKind::For { iter: cond, body, .. } | ExprKind::ParallelFor { iter: cond, body, .. } => mentions_in_expr(cond, f) || mentions_in_block(body, f),
        ExprKind::Match { scrutinee, arms } => mentions_in_expr(scrutinee, f) || mentions_in_arms(arms, f),
        ExprKind::Block(b) => mentions_in_block(b, f),
        ExprKind::Lambda { body, .. } => mentions_in_expr(body, f),
        ExprKind::Spawn(x) | ExprKind::NamedArg { value: x, .. } | ExprKind::Try(x) => mentions_in_expr(x, f),
        ExprKind::TupleLit(items) | ExprKind::ArrayLit(items) => mentions_in_exprs(items, f),
        ExprKind::RecordLit { fields, .. } => mentions_in_fields(fields, f),
        _ => false,
    }
}

fn mentions_in_exprs(v: &Vec<Expr>, f: &str) -> (r: bool)
    ensures
        r == mentions_exprs(*v, v.len() as int, f@),
    decreases v, v.len(),
{
    let mut i: usize = 0;
    while i < v.len()
        invariant
            i <= v.len(),
            !mentions_exprs(*v, i as int, f@),
        decreases v.len() - i,
    {
        proof { assert(decreases_to!(*v => v[i as int])); }
        if mentions_in_expr(&v[i], f) {
            proof { lemma_mentions_exprs_mono(*v, i as int + 1, v.len() as int, f@); }
            return true;
        }
        i = i + 1;
    }
    false
}

fn mentions_in_fields(v: &Vec<RecordLitField>, f: &str) -> (r: bool)
    ensures
        r == mentions_fields(*v, v.len() as int, f@),
    decreases v, v.len(),
{
    let mut i: usize = 0;
    while i < v.len()
        invariant
            i <= v.len(),
            !mentions_fields(*v, i as int, f@),
        decreases v.len() - i,
    {
        proof { assert(decreases_to!(*v => v[i as int])); }
        let hit = match &v[i].value {
            Some(x) => mentions_in_expr(x, f),
            None => false,
        };
        if hit {
            proof { lemma_mentions_fields_mono(*v, i as int + 1, v.len() as int, f@); }
            return true;
        }
        i = i + 1;
    }
    false
}

fn mentions_in_arms(v: &Vec<MatchArm>, f: &str) -> (r: bool)
    ensures
        r == mentions_arms(*v, v.len() as int, f@),
    decreases v, v.len(),
{
    let mut i: usize = 0;
    while i < v.len()
        invariant
            i <= v.len(),
            !mentions_arms(*v, i as int, f@),
        decreases v.len() - i,
    {
        proof { assert(decreases_to!(*v => v[i as int])); }
        let hit = match &v[i].body {
            MatchArmBody::Expr(x) => mentions_in_expr(x, f),
            MatchArmBody::Block(b) => mentions_in_block(b, f),
        };
        if hit {
            proof { lemma_mentions_arms_mono(*v, i as int + 1, v.len() as int, f@); }
            return true;
        }
        i = i + 1;
    }
    false
}

/// Executable form of `mentions_block`.
pub fn mentions_in_block(b: &Block, f: &str) -> (r: bool)
    ensures
        r == mentions_block(*b, f@),
    decreases b, 0int,
{
    if mentions_in_stmts(&b.stmts, f) {
        return true;
    }
    match &b.trailing {
        Some(t) => mentions_in_expr(t, f),
        None => false,
    }
}

fn mentions_in_stmts(v: &Vec<Stmt>, f: &str) -> (r: bool)
    ensures
        r == mentions_stmts(*v, v.len() as int, f@),
    decreases v, v.len(),
{
    let mut i: usize = 0;
    while i < v.len()
        invariant
            i <= v.len(),
            !mentions_stmts(*v, i as int, f@),
        decreases v.len() - i,
    {
        proof { assert(decreases_to!(*v => v[i as int])); }
        if mentions_in_stmt(&v[i], f) {
            proof { lemma_mentions_stmts_mono(*v, i as int + 1, v.len() as int, f@); }
            return true;
        }
        i = i + 1;
    }
    false
}

/// Executable form of `mentions_stmt`.
pub fn mentions_in_stmt(s: &Stmt, f: &str) -> (r: bool)
    ensures
        r == mentions_stmt(*s, f@),
    decreases s, 0int,
{
    match s {
        Stmt::Let(d) => mentions_in_expr(&d.value, f),
        Stmt::Assign { target, value, .. } => {
            mentions_in_expr(target, f) || mentions_in_expr(value, f)
        },
        Stmt::Expr(x) => mentions_in_expr(x, f),
        Stmt::Return { value, .. } => match value {
            Some(x) => mentions_in_expr(x, f),
            None => false,
        },
        _ => false,
    }
}

proof fn lemma_mentions_exprs_mono(v: Vec<Expr>, i: int, j: int, f: Seq<char>)
    requires
        0 <= i <= j <= v.len(),
        mentions_exprs(v, i, f),
    ensures
        mentions_exprs(v, j, f),
    decreases j - i,
{
    if i < j {
        lemma_mentions_exprs_mono(v, i, j - 1, f);
    }
}

proof fn lemma_mentions_fields_mono(v: Vec<RecordLitField>, i: int, j: int, f: Seq<char>)
    requires
        0 <= i <= j <= v.len(),
        mentions_fields(v, i, f),
    ensures
        mentions_fields(v, j, f),
    decreases j - i,
{
    if i < j {
        lemma_mentions_fields_mono(v, i, j - 1, f);
    }
}

proof fn lemma_mentions_arms_mono(v: Vec<MatchArm>, i: int, j: int, f: Seq<char>)
    requires
        0 <= i <= j <= v.len(),
        mentions_arms(v, i, f),
    ensures
        mentions_arms(v, j, f),
    decreases j - i,
{
    if i < j {
        lemma_mentions_arms_mono(v, i, j - 1, f);
    }
}

proof fn lemma_mentions_stmts_mono(v: Vec<Stmt>, i: int, j: int, f: Seq<char>)
    requires
        0 <= i <= j <= v.len(),
        mentions_stmts(v, i, f),
    ensures
        mentions_stmts(v, j, f),
    decreases j - i,
{
    if i < j {
        lemma_mentions_stmts_mono(v, i, j - 1, f);
    }
}
/// Some closure in `e` refers to `@f`.
pub open spec fn captured_expr(e: Expr, f: Seq<char>) -> bool
    decreases e, 0int,
{
    match self_field_of(e) {
        Some(g) => false,
        None => match e.kind {
            ExprKind::Member { obj, .. } => captured_expr(*obj, f),
            ExprKind::Call { func, args } => captured_expr(*func, f) || captured_exprs(args, args.len() as int, f),
            ExprKind::Binary { left, right, .. } => captured_expr(*left, f) || captured_expr(*right, f),
            ExprKind::Unary { operand, .. } => captured_expr(*operand, f),
            ExprKind::Index { obj, index } => captured_expr(*obj, f) || captured_expr(*index, f),
            ExprKind::If { cond, then, else_ } | ExprKind::IfLet { scrutinee: cond, then, else_, .. } => captured_expr(*cond, f) || captured_block(then, f) || match else_ {
                Some(ElseBranch::Block(b)) => captured_block(b, f),
                Some(ElseBranch::If(x)) => captured_expr(*x, f),
                None => false,
            },
            ExprKind::While { cond, body } | ExprKind::WhileLet { scrutinee: cond, body, .. } | ExprKind::For { iter: cond, body, .. } | ExprKind::ParallelFor { iter: cond, body, .. } => captured_expr(*cond, f) || captured_block(body, f),
            ExprKind::Match { scrutinee, arms } => captured_expr(*scrutinee, f) || captured_arms(arms, arms.len() as int, f),
            ExprKind::Block(b) => captured_block(b, f),
            ExprKind::Lambda { body, .. } => mentions_expr(*body, f),
            ExprKind::Spawn(x) | ExprKind::NamedArg { value: x, .. } | ExprKind::Try(x) => captured_expr(*x, f),
            ExprKind::TupleLit(items) | ExprKind::ArrayLit(items) => captured_exprs(items, items.len() as int, f),
            ExprKind::RecordLit { fields, .. } => captured_fields(fields, fields.len() as int, f),
            _ => false,
        },
    }
}

pub open spec fn captured_exprs(v: Vec<Expr>, k: int, f: Seq<char>) -> bool
    decreases v, k,
{
    if k <= 0 || k > v.len() { false } else { captured_exprs(v, k - 1, f) || captured_expr(v[k - 1], f) }
}

pub open spec fn captured_fields(v: Vec<RecordLitField>, k: int, f: Seq<char>) -> bool
    decreases v, k,
{
    if k <= 0 || k > v.len() {
        false
    } else {
        captured_fields(v, k - 1, f) || match v[k - 1].value {
            Some(x) => captured_expr(x, f),
            None => false,
        }
    }
}

pub open spec fn captured_arms(v: Vec<MatchArm>, k: int, f: Seq<char>) -> bool
    decreases v, k,
{
    if k <= 0 || k > v.len() {
        false
    } else {
        captured_arms(v, k - 1, f) || match v[k - 1].body {
            MatchArmBody::Expr(x) => captured_expr(x, f),
            MatchArmBody::Block(b) => captured_block(b, f),
        }
    }
}

pub open spec fn captured_block(b: Block, f: Seq<char>) -> bool
    decreases b, 0int,
{
    captured_stmts(b.stmts, b.stmts.len() as int, f) || match b.trailing {
        Some(t) => captured_expr(*t, f),
        None => false,
    }
}

pub open spec fn captured_stmts(v: Vec<Stmt>, k: int, f: Seq<char>) -> bool
    decreases v, k,
{
    if k <= 0 || k > v.len() { false } else { captured_stmts(v, k - 1, f) || captured_stmt(v[k - 1], f) }
}

pub open spec fn captured_stmt(s: Stmt, f: Seq<char>) -> bool
    decreases s, 0int,
{
    match s {
        Stmt::Let(d) => captured_expr(d.value, f),
        Stmt::Assign { target, value, .. } => (if self_field_of(target) is Some { false } else { captured_expr(target, f) }) || captured_expr(value, f),
        Stmt::Expr(x) => captured_expr(x, f),
        Stmt::Return { value, .. } => match value {
            Some(x) => captured_expr(x, f),
            None => false,
        },
        _ => false,
    }
}

/// Executable form of `captured_expr`.
pub fn captured_in_expr(e: &Expr, f: &str) -> (r: bool)
    ensures
        r == captured_expr(*e, f@),
    decreases e, 0int,
{
    if let Some(g) = self_field(e) {
        return false;
    }
    match &e.kind {
        ExprKind::Member { obj, .. } => captured_in_expr(obj, f),
        ExprKind::Call { func, args } => {
            captured_in_expr(func, f) || captured_in_exprs(args, f)
        },
        ExprKind::Binary { left, right, .. } => captured_in_expr(left, f) || captured_in_expr(right, f),
        ExprKind::Unary { operand, .. } => captured_in_expr(operand, f),
        ExprKind::Index { obj, index } => captured_in_expr(obj, f) || captured_in_expr(index, f),
        ExprKind::If { cond, then, else_ } | ExprKind::IfLet { scrutinee: cond, then, else_, .. } => {
            if captured_in_expr(cond, f) || captured_in_block(then, f) {
                true
            } else {
                match else_ {
                    Some(ElseBranch::Block(b)) => captured_in_block(b, f),
                    Some(ElseBranch::If(x)) => captured_in_expr(x, f),
                    None => false,
                }
            }
        },
        ExprKind::While { cond, body } | ExprKind::WhileLet { scrutinee: cond, body, .. } | ExprKind::For { iter: cond, body, .. } | ExprKind::ParallelFor { iter: cond, body, .. } => captured_in_expr(cond, f) || captured_in_block(body, f),
        ExprKind::Match { scrutinee, arms } => captured_in_expr(scrutinee, f) || captured_in_arms(arms, f),
        ExprKind::Block(b) => captured_in_block(b, f),
        ExprKind::Lambda { body, .. } => mentions_in_expr(body, f),
        ExprKind::Spawn(x) | ExprKind::NamedArg { value: x, .. } | ExprKind::Try(x) => captured_in_expr(x, f),
        ExprKind::TupleLit(items) | ExprKind::ArrayLit(items) => captured_in_exprs(items, f),
        ExprKind::RecordLit { fields, .. } => captured_in_fields(fields, f),
        _ => false,
    }
}

fn captured_in_exprs(v: &Vec<Expr>, f: &str) -> (r: bool)
    ensures
        r == captured_exprs(*v, v.len() as int, f@),
    decreases v, v.len(),
{
    let mut i: usize = 0;
    while i < v.len()
        invariant
            i <= v.len(),
            !captured_exprs(*v, i as int, f@),
        decreases v.len() - i,
    {
        proof { assert(decreases_to!(*v => v[i as int])); }
        if captured_in_expr(&v[i], f) {
            proof { lemma_captured_exprs_mono(*v, i as int + 1, v.len() as int, f@); }
            return true;
        }
        i = i + 1;
    }
    false
}

fn captured_in_fields(v: &Vec<RecordLitField>, f: &str) -> (r: bool)
    ensures
        r == captured_fields(*v, v.len() as int, f@),
    decreases v, v.len(),
{
    let mut i: usize = 0;
    while i < v.len()
        invariant
            i <= v.len(),
            !captured_fields(*v, i as int, f@),
        decreases v.len() - i,
    {
        proof { assert(decreases_to!(*v => v[i as int])); }
        let hit = match &v[i].value {
            Some(x) => captured_in_expr(x, f),
            None => false,
        };
        if hit {
            proof { lemma_captured_fields_mono(*v, i as int + 1, v.len() as int, f@); }
            return true;
        }
        i = i + 1;
    }
    false
}

fn captured_in_arms(v: &Vec<MatchArm>, f: &str) -> (r: bool)
    ensures
        r == captured_arms(*v, v.len() as int, f@),
    decreases v, v.len(),
{
    let mut i: usize = 0;
    while i < v.len()
        invariant
            i <= v.len(),
            !captured_arms(*v, i as int, f@),
        decreases v.len() - i,
    {
        proof { assert(decreases_to!(*v => v[i as int])); }
        let hit = match &v[i].body {
            MatchArmBody::Expr(x) => captured_in_expr(x, f),
            MatchArmBody::Block(b) => captured_in_block(b, f),
        };
        if hit {
            proof { lemma_captured_arms_mono(*v, i as int + 1, v.len() as int, f@); }
            return true;
        }
        i = i + 1;
    }
    false
}

/// Executable form of `captured_block`.
pub fn captured_in_block(b: &Block, f: &str) -> (r: bool)
    ensures
        r == captured_block(*b, f@),
    decreases b, 0int,
{
    if captured_in_stmts(&b.stmts, f) {
        return true;
    }
    match &b.trailing {
        Some(t) => captured_in_expr(t, f),
        None => false,
    }
}

fn captured_in_stmts(v: &Vec<Stmt>, f: &str) -> (r: bool)
    ensures
        r == captured_stmts(*v, v.len() as int, f@),
    decreases v, v.len(),
{
    let mut i: usize = 0;
    while i < v.len()
        invariant
            i <= v.len(),
            !captured_stmts(*v, i as int, f@),
        decreases v.len() - i,
    {
        proof { assert(decreases_to!(*v => v[i as int])); }
        if captured_in_stmt(&v[i], f) {
            proof { lemma_captured_stmts_mono(*v, i as int + 1, v.len() as int, f@); }
            return true;
        }
        i = i + 1;
    }
    false
}

/// Executable form of `captured_stmt`.
pub fn captured_in_stmt(s: &Stmt, f: &str) -> (r: bool)
    ensures
        r == captured_stmt(*s, f@),
    decreases s, 0int,
{
    match s {
        Stmt::Let(d) => captured_in_expr(&d.value, f),
        Stmt::Assign { target, value, .. } => {
            (if self_field(target).is_some() { false } else { captured_in_expr(target, f) }) || captured_in_expr(value, f)
        },
        Stmt::Expr(x) => captured_in_expr(x, f),
        Stmt::Return { value, .. } => match value {
            Some(x) => captured_in_expr(x, f),
            None => false,
        },
        _ => false,
    }
}

proof fn lemma_captured_exprs_mono(v: Vec<Expr>, i: int, j: int, f: Seq<char>)
    requires
        0 <= i <= j <= v.len(),
        captured_exprs(v, i, f),
    ensures
        captured_exprs(v, j, f),
    decreases j - i,
{
    if i < j {
        lemma_captured_exprs_mono(v, i, j - 1, f);
    }
}

proof fn lemma_captured_fields_mono(v: Vec<RecordLitField>, i: int, j: int, f: Seq<char>)
    requires
        0 <= i <= j <= v.len(),
        captured_fields(v, i, f),
    ensures
        captured_fields(v, j, f),
    decreases j - i,
{
    if i < j {
        lemma_captured_fields_mono(v, i, j - 1, f);
    }
}

proof fn lemma_captured_arms_mono(v: Vec<MatchArm>, i: int, j: int, f: Seq<char>)
    requires
        0 <= i <= j <= v.len(),
        captured_arms(v, i, f),
    ensures
        captured_arms(v, j, f),
    decreases j - i,
{
    if i < j {
        lemma_captured_arms_mono(v, i, j - 1, f);
    }
}

proof fn lemma_captured_stmts_mono(v: Vec<Stmt>, i: int, j: int, f: Seq<char>)
    requires
        0 <= i <= j <= v.len(),
        captured_stmts(v, i, f),
    ensures
        captured_stmts(v, j, f),
    decreases j - i,
{
    if i < j {
        lemma_captured_stmts_mono(v, i, j - 1, f);
    }
}
/// Some assignment `@f = v` occurs in `e` (outside closures).
pub open spec fn writes_expr(e: Expr, f: Seq<char>) -> bool
    decreases e, 0int,
{
    match self_field_of(e) {
        Some(g) => false,
        None => match e.kind {
            ExprKind::Member { obj, .. } => writes_expr(*obj, f),
            ExprKind::Call { func, args } => writes_expr(*func, f) || writes_exprs(args, args.len() as int, f),
            ExprKind::Binary { left, right, .. } => writes_expr(*left, f) || writes_expr(*right, f),
            ExprKind::Unary { operand, .. } => writes_expr(*operand, f),
            ExprKind::Index { obj, index } => writes_expr(*obj, f) || writes_expr(*index, f),
            ExprKind::If { cond, then, else_ } | ExprKind::IfLet { scrutinee: cond, then, else_, .. } => writes_expr(*cond, f) || writes_block(then, f) || match else_ {
                Some(ElseBranch::Block(b)) => writes_block(b, f),
                Some(ElseBranch::If(x)) => writes_expr(*x, f),
                None => false,
            },
            ExprKind::While { cond, body } | ExprKind::WhileLet { scrutinee: cond, body, .. } | ExprKind::For { iter: cond, body, .. } | ExprKind::ParallelFor { iter: cond, body, .. } => writes_expr(*cond, f) || writes_block(body, f),
            ExprKind::Match { scrutinee, arms } => writes_expr(*scrutinee, f) || writes_arms(arms, arms.len() as int, f),
            ExprKind::Block(b) => writes_block(b, f),
            ExprKind::Lambda { body, .. } => false,
            ExprKind::Spawn(x) | ExprKind::NamedArg { value: x, .. } | ExprKind::Try(x) => writes_expr(*x, f),
            ExprKind::TupleLit(items) | ExprKind::ArrayLit(items) => writes_exprs(items, items.len() as int, f),
            ExprKind::RecordLit { fields, .. } => writes_fields(fields, fields.len() as int, f),
            _ => false,
        },
    }
}

pub open spec fn writes_exprs(v: Vec<Expr>, k: int, f: Seq<char>) -> bool
    decreases v, k,
{
    if k <= 0 || k > v.len() { false } else { writes_exprs(v, k - 1, f) || writes_expr(v[k - 1], f) }
}

pub open spec fn writes_fields(v: Vec<RecordLitField>, k: int, f: Seq<char>) -> bool
    decreases v, k,
{
    if k <= 0 || k > v.len() {
        false
    } else {
        writes_fields(v, k - 1, f) || match v[k - 1].value {
            Some(x) => writes_expr(x, f),
            None => false,
        }
    }
}

pub open spec fn writes_arms(v: Vec<MatchArm>, k: int, f: Seq<char>) -> bool
    decreases v, k,
{
    if k <= 0 || k > v.len() {
        false
    } else {
        writes_arms(v, k - 1, f) || match v[k - 1].body {
            MatchArmBody::Expr(x) => writes_expr(x, f),
            MatchArmBody::Block(b) => writes_block(b, f),
        }
    }
}

pub open spec fn writes_block(b: Block, f: Seq<char>) -> bool
    decreases b, 0int,
{
    writes_stmts(b.stmts, b.stmts.len() as int, f) || match b.trailing {
        Some(t) => writes_expr(*t, f),
        None => false,
    }
}

pub open spec fn writes_stmts(v: Vec<Stmt>, k: int, f: Seq<char>) -> bool
    decreases v, k,
{
    if k <= 0 || k > v.len() { false } else { writes_stmts(v, k - 1, f) || writes_stmt(v[k - 1], f) }
}

pub open spec fn writes_stmt(s: Stmt, f: Seq<char>) -> bool
    decreases s, 0int,
{
    match s {
        Stmt::Let(d) => writes_expr(d.value, f),
        Stmt::Assign { target, value, .. } => self_field_of(target) == Some(f) || writes_expr(target, f) || writes_expr(value, f),
        Stmt::Expr(x) => writes_expr(x, f),
        Stmt::Return { value, .. } => match value {
            Some(x) => writes_expr(x, f),
            None => false,
        },
        _ => false,
    }
}

/// Executable form of `writes_expr`.
pub fn writes_in_expr(e: &Expr, f: &str) -> (r: bool)
    ensures
        r == writes_expr(*e, f@),
    decreases e, 0int,
{
    if let Some(g) = self_field(e) {
        return false;
    }
    match &e.kind {
        ExprKind::Member { obj, .. } => writes_in_expr(obj, f),
        ExprKind::Call { func, args } => {
            writes_in_expr(func, f) || writes_in_exprs(args, f)
        },
        ExprKind::Binary { left, right, .. } => writes_in_expr(left, f) || writes_in_expr(right, f),
        ExprKind::Unary { operand, .. } => writes_in_expr(operand, f),
        ExprKind::Index { obj, index } => writes_in_expr(obj, f) || writes_in_expr(index, f),
        ExprKind::If { cond, then, else_ } | ExprKind::IfLet { scrutinee: cond, then, else_, .. } => {
            if writes_in_expr(cond, f) || writes_in_block(then, f) {
                true
            } else {
                match else_ {
                    Some(ElseBranch::Block(b)) => writes_in_block(b, f),
                    Some(ElseBranch::If(x)) => writes_in_expr(x, f),
                    None => false,
                }
            }
        },
        ExprKind::While { cond, body } | ExprKind::WhileLet { scrutinee: cond, body, .. } | ExprKind::For { iter: cond, body, .. } | ExprKind::ParallelFor { iter: cond, body, .. } => writes_in_expr(cond, f) || writes_in_block(body, f),
        ExprKind::Match { scrutinee, arms } => writes_in_expr(scrutinee, f) || writes_in_arms(arms, f),
        ExprKind::Block(b) => writes_in_block(b, f),
        ExprKind::Lambda { body, .. } => false,
        ExprKind::Spawn(x) | ExprKind::NamedArg { value: x, .. } | ExprKind::Try(x) => writes_in_expr(x, f),
        ExprKind::TupleLit(items) | ExprKind::ArrayLit(items) => writes_in_exprs(items, f),
        ExprKind::RecordLit { fields, .. } => writes_in_fields(fields, f),
        _ => false,
    }
}

fn writes_in_exprs(v: &Vec<Expr>, f: &str) -> (r: bool)
    ensures
        r == writes_exprs(*v, v.len() as int, f@),
    decreases v, v.len(),
{
    let mut i: usize = 0;
    while i < v.len()
        invariant
            i <= v.len(),
            !writes_exprs(*v, i as int, f@),
        decreases v.len() - i,
    {
        proof { assert(decreases_to!(*v => v[i as int])); }
        if writes_in_expr(&v[i], f) {
            proof { lemma_writes_exprs_mono(*v, i as int + 1, v.len() as int, f@); }
            return true;
        }
        i = i + 1;
    }
    false
}

fn writes_in_fields(v: &Vec<RecordLitField>, f: &str) -> (r: bool)
    ensures
        r == writes_fields(*v, v.len() as int, f@),
    decreases v, v.len(),
{
    let mut i: usize = 0;
    while i < v.len()
        invariant
            i <= v.len(),
            !writes_fields(*v, i as int, f@),
        decreases v.len() - i,
    {
        proof { assert(decreases_to!(*v => v[i as int])); }
        let hit = match &v[i].value {
            Some(x) => writes_in_expr(x, f),
            None => false,
        };
        if hit {
            proof { lemma_writes_fields_mono(*v, i as int + 1, v.len() as int, f@); }
            return true;
        }
        i = i + 1;
    }
    false
}

fn writes_in_arms(v: &Vec<MatchArm>, f: &str) -> (r: bool)
    ensures
        r == writes_arms(*v, v.len() as int, f@),
    decreases v, v.len(),
{
    let mut i: usize = 0;
    while i < v.len()
        invariant
            i <= v.len(),
            !writes_arms(*v, i as int, f@),
        decreases v.len() - i,
    {
        proof { assert(decreases_to!(*v => v[i as int])); }
        let hit = match &v[i].body {
            MatchArmBody::Expr(x) => writes_in_expr(x, f),
            MatchArmBody::Block(b) => writes_in_block(b, f),
        };
        if hit {
            proof { lemma_writes_arms_mono(*v, i as int + 1, v.len() as int, f@); }
            return true;
        }
        i = i + 1;
    }
    false
}

/// Executable form of `writes_block`.
pub fn writes_in_block(b: &Block, f: &str) -> (r: bool)
    ensures
        r == writes_block(*b, f@),
    decreases b, 0int,
{
    if writes_in_stmts(&b.stmts, f) {
        return true;
    }
    match &b.trailing {
        Some(t) => writes_in_expr(t, f),
        None => false,
    }
}

fn writes_in_stmts(v: &Vec<Stmt>, f: &str) -> (r: bool)
    ensures
        r == writes_stmts(*v, v.len() as int, f@),
    decreases v, v.len(),
{
    let mut i: usize = 0;
    while i < v.len()
        invariant
            i <= v.len(),
            !writes_stmts(*v, i as int, f@),
        decreases v.len() - i,
    {
        proof { assert(decreases_to!(*v => v[i as int])); }
        if writes_in_stmt(&v[i], f) {
            proof { lemma_writes_stmts_mono(*v, i as int + 1, v.len() as int, f@); }
            return true;
        }
        i = i + 1;
    }
    false
}

/// Executable form of `writes_stmt`.
pub fn writes_in_stmt(s: &Stmt, f: &str) -> (r: bool)
    ensures
        r == writes_stmt(*s, f@),
    decreases s, 0int,
{
    match s {
        Stmt::Let(d) => writes_in_expr(&d.value, f),
        Stmt::Assign { target, value, .. } => {
            let direct = match self_field(target) {
                Some(g) => str_eq(g.as_str(), f),
                None => false,
            };
            direct || writes_in_expr(target, f) || writes_in_expr(value, f)
        },
        Stmt::Expr(x) => writes_in_expr(x, f),
        Stmt::Return { value, .. } => match value {
            Some(x) => writes_in_expr(x, f),
            None => false,
        },
        _ => false,
    }
}

proof fn lemma_writes_exprs_mono(v: Vec<Expr>, i: int, j: int, f: Seq<char>)
    requires
        0 <= i <= j <= v.len(),
        writes_exprs(v, i, f),
    ensures
        writes_exprs(v, j, f),
    decreases j - i,
{
    if i < j {
        lemma_writes_exprs_mono(v, i, j - 1, f);
    }
}

proof fn lemma_writes_fields_mono(v: Vec<RecordLitField>, i: int, j: int, f: Seq<char>)
    requires
        0 <= i <= j <= v.len(),
        writes_fields(v, i, f),
    ensures
        writes_fields(v, j, f),
    decreases j - i,
{
    if i < j {
        lemma_writes_fields_mono(v, i, j - 1, f);
    }
}

proof fn lemma_writes_arms_mono(v: Vec<MatchArm>, i: int, j: int, f: Seq<char>)
    requires
        0 <= i <= j <= v.len(),
        writes_arms(v, i, f),
    ensures
        writes_arms(v, j, f),
    decreases j - i,
{
    if i < j {
        lemma_writes_arms_mono(v, i, j - 1, f);
    }
}

proof fn lemma_writes_stmts_mono(v: Vec<Stmt>, i: int, j: int, f: Seq<char>)
    requires
        0 <= i <= j <= v.len(),
        writes_stmts(v, i, f),
    ensures
        writes_stmts(v, j, f),
    decreases j - i,
{
    if i < j {
        lemma_writes_stmts_mono(v, i, j - 1, f);
    }
}
/// Evaluating `e` runs a call that may change `@f`: without field sets every call may; with them a call `@m(..)` may when `m` writes `f` (or is unknown), a call `@g.m(..)` may only when `g` is `f`, and any other call may. Spawned work always may; closure bodies are not run here.
pub open spec fn invalidates_expr(e: Expr, ctx: Option<IpaView>, f: Seq<char>) -> bool
    decreases e, 0int,
{
    match self_field_of(e) {
        Some(g) => false,
        None => match e.kind {
            ExprKind::Member { obj, .. } => invalidates_expr(*obj, ctx, f),
            ExprKind::Call { func, args } => (match ctx {
                Some(c) => match func.kind {
                    ExprKind::Member { obj, name } => if obj.kind is SelfAccess {
                        call_may_write(c, name@, f)
                    } else {
                        match self_field_of(*obj) {
                            Some(g) => g == f,
                            None => true,
                        }
                    },
                    _ => true,
                },
                None => true,
            }) || invalidates_exprs(args, args.len() as int, ctx, f) || match func.kind {
                ExprKind::Member { obj, .. } => invalidates_expr(*obj, ctx, f),
                _ => invalidates_expr(*func, ctx, f),
            },
            ExprKind::Binary { left, right, .. } => invalidates_expr(*left, ctx, f) || invalidates_expr(*right, ctx, f),
            ExprKind::Unary { operand, .. } => invalidates_expr(*operand, ctx, f),
            ExprKind::Index { obj, index } => invalidates_expr(*obj, ctx, f) || invalidates_expr(*index, ctx, f),
            ExprKind::If { cond, then, else_ } | ExprKind::IfLet { scrutinee: cond, then, else_, .. } => invalidates_expr(*cond, ctx, f) || invalidates_block(then, ctx, f) || match else_ {
                Some(ElseBranch::Block(b)) => invalidates_block(b, ctx, f),
                Some(ElseBranch::If(x)) => invalidates_expr(*x, ctx, f),
                None => false,
            },
            ExprKind::While { cond, body } | ExprKind::WhileLet { scrutinee: cond, body, .. } | ExprKind::For { iter: cond, body, .. } | ExprKind::ParallelFor { iter: cond, body, .. } => invalidates_expr(*cond, ctx, f) || invalidates_block(body, ctx, f),
            ExprKind::Match { scrutinee, arms } => invalidates_expr(*scrutinee, ctx, f) || invalidates_arms(arms, arms.len() as int, ctx, f),
            ExprKind::Block(b) => invalidates_block(b, ctx, f),
            ExprKind::Lambda { body, .. } => false,
            ExprKind::Spawn(x) => true,
            ExprKind::NamedArg { value, .. } | ExprKind::Try(value) => invalidates_expr(*value, ctx, f),
            ExprKind::TupleLit(items) | ExprKind::ArrayLit(items) => invalidates_exprs(items, items.len() as int, ctx, f),
            ExprKind::RecordLit { fields, .. } => invalidates_fields(fields, fields.len() as int, ctx, f),
            _ => false,
        },
    }
}

pub open spec fn invalidates_exprs(v: Vec<Expr>, k: int, ctx: Option<IpaView>, f: Seq<char>) -> bool
    decreases v, k,
{
    if k <= 0 || k > v.len() { false } else { invalidates_exprs(v, k - 1, ctx, f) || invalidates_expr(v[k - 1], ctx, f) }
}

pub open spec fn invalidates_fields(v: Vec<RecordLitField>, k: int, ctx: Option<IpaView>, f: Seq<char>) -> bool
    decreases v, k,
{
    if k <= 0 || k > v.len() {
        false
    } else {
        invalidates_fields(v, k - 1, ctx, f) || match v[k - 1].value {
            Some(x) => invalidates_expr(x, ctx, f),
            None => false,
        }
    }
}

pub open spec fn invalidates_arms(v: Vec<MatchArm>, k: int, ctx: Option<IpaView>, f: Seq<char>) -> bool
    decreases v, k,
{
    if k <= 0 || k > v.len() {
        false
    } else {
        invalidates_arms(v, k - 1, ctx, f) || match v[k - 1].body {
            MatchArmBody::Expr(x) => invalidates_expr(x, ctx, f),
            MatchArmBody::Block(b) => invalidates_block(b, ctx, f),
        }
    }
}

pub open spec fn invalidates_block(b: Block, ctx: Option<IpaView>, f: Seq<char>) -> bool
    decreases b, 0int,
{
    invalidates_stmts(b.stmts, b.stmts.len() as int, ctx, f) || match b.trailing {
        Some(t) => invalidates_expr(*t, ctx, f),
        None => false,
    }
}

pub open spec fn invalidates_stmts(v: Vec<Stmt>, k: int, ctx: Option<IpaView>, f: Seq<char>) -> bool
    decreases v, k,
{
    if k <= 0 || k > v.len() { false } else { invalidates_stmts(v, k - 1, ctx, f) || invalidates_stmt(v[k - 1], ctx, f) }
}

pub open spec fn invalidates_stmt(s: Stmt, ctx: Option<IpaView>, f: Seq<char>) -> bool
    decreases s, 0int,
{
    match s {
        Stmt::Let(d) => invalidates_expr(d.value, ctx, f),
        Stmt::Assign { target, value, .. } => invalidates_expr(target, ctx, f) || invalidates_expr(value, ctx, f),
        Stmt::Expr(x) => invalidates_expr(x, ctx, f),
        Stmt::Return { value, .. } => match value {
            Some(x) => invalidates_expr(x, ctx, f),
            None => false,
        },
        _ => false,
    }
}

/// Executable form of `invalidates_expr`.
pub fn invalidates_in_expr(e: &Expr, ipa: Option<(&WriteSets, &str)>, f: &str) -> (r: bool)
    ensures
        r == invalidates_expr(*e, ipa_view(ipa), f@),
    decreases e, 0int,
{
    if let Some(g) = self_field(e) {
        return false;
    }
    match &e.kind {
        ExprKind::Member { obj, .. } => invalidates_in_expr(obj, ipa, f),
        ExprKind::Call { func, args } => {
            let this_call = match ipa {
                Some((ws, recv)) => match &func.kind {
                    ExprKind::Member { obj, name } => {
                        if let ExprKind::SelfAccess = obj.kind {
                            call_invalidates_field(ws, recv, name.as_str(), f)
                        } else {
                            match self_field(obj) {
                                Some(g) => str_eq(g.as_str(), f),
                                None => true,
                            }
                        }
                    },
                    _ => true,
                },
                None => true,
            };
            if this_call {
                return true;
            }
            if invalidates_in_exprs(args, ipa, f) {
                return true;
            }
            match &func.kind {
                ExprKind::Member { obj, .. } => invalidates_in_expr(obj, ipa, f),
                _ => invalidates_in_expr(func, ipa, f),
            }
        },
        ExprKind::Binary { left, right, .. } => invalidates_in_expr(left, ipa, f) || invalidates_in_expr(right, ipa, f),
        ExprKind::Unary { operand, .. } => invalidates_in_expr(operand, ipa, f),
        ExprKind::Index { obj, index } => invalidates_in_expr(obj, ipa, f) || invalidates_in_expr(index, ipa, f),
        ExprKind::If { cond, then, else_ } | ExprKind::IfLet { scrutinee: cond, then, else_, .. } => {
            if invalidates_in_expr(cond, ipa, f) || invalidates_in_block(then, ipa, f) {
                true
            } else {
                match else_ {
                    Some(ElseBranch::Block(b)) => invalidates_in_block(b, ipa, f),
                    Some(ElseBranch::If(x)) => invalidates_in_expr(x, ipa, f),
                    None => false,
                }
            }
        },
        ExprKind::While { cond, body } | ExprKind::WhileLet { scrutinee: cond, body, .. } | ExprKind::For { iter: cond, body, .. } | ExprKind::ParallelFor { iter: cond, body, .. } => invalidates_in_expr(cond, ipa, f) || invalidates_in_block(body, ipa, f),
        ExprKind::Match { scrutinee, arms } => invalidates_in_expr(scrutinee, ipa, f) || invalidates_in_arms(arms, ipa, f),
        ExprKind::Block(b) => invalidates_in_block(b, ipa, f),
        ExprKind::Lambda { body, .. } => false,
        ExprKind::Spawn(x) => true,
        ExprKind::NamedArg { value, .. } | ExprKind::Try(value) => invalidates_in_expr(value, ipa, f),
        ExprKind::TupleLit(items) | ExprKind::ArrayLit(items) => invalidates_in_exprs(items, ipa, f),
        ExprKind::RecordLit { fields, .. } => invalidates_in_fields(fields, ipa, f),
        _ => false,
    }
}

fn invalidates_in_exprs(v: &Vec<Expr>, ipa: Option<(&WriteSets, &str)>, f: &str) -> (r: bool)
    ensures
        r == invalidates_exprs(*v, v.len() as int, ipa_view(ipa), f@),
    decreases v, v.len(),
{
    let mut i: usize = 0;
    while i < v.len()
        invariant
            i <= v.len(),
            !invalidates_exprs(*v, i as int, ipa_view(ipa), f@),
        decreases v.len() - i,
    {
        proof { assert(decreases_to!(*v => v[i as int])); }
        if invalidates_in_expr(&v[i], ipa, f) {
            proof { lemma_invalidates_exprs_mono(*v, i as int + 1, v.len() as int, ipa_view(ipa), f@); }
            return true;
        }
        i = i + 1;
    }
    false
}

fn invalidates_in_fields(v: &Vec<RecordLitField>, ipa: Option<(&WriteSets, &str)>, f: &str) -> (r: bool)
    ensures
        r == invalidates_fields(*v, v.len() as int, ipa_view(ipa), f@),
    decreases v, v.len(),
{
    let mut i: usize = 0;
    while i < v.len()
        invariant
            i <= v.len(),
            !invalidates_fields(*v, i as int, ipa_view(ipa), f@),
        decreases v.len() - i,
    {
        proof { assert(decreases_to!(*v => v[i as int])); }
        let hit = match &v[i].value {
            Some(x) => invalidates_in_expr(x, ipa, f),
            None => false,
        };
        if hit {
            proof { lemma_invalidates_fields_mono(*v, i as int + 1, v.len() as int, ipa_view(ipa), f@); }
            return true;
        }
        i = i + 1;
    }
    false
}

fn invalidates_in_arms(v: &Vec<MatchArm>, ipa: Option<(&WriteSets, &str)>, f: &str) -> (r: bool)
    ensures
        r == invalidates_arms(*v, v.len() as int, ipa_view(ipa), f@),
    decreases v, v.len(),
{
    let mut i: usize = 0;
    while i < v.len()
        invariant
            i <= v.len(),
            !invalidates_arms(*v, i as int, ipa_view(ipa), f@),
        decreases v.len() - i,
    {
        proof { assert(decreases_to!(*v => v[i as int])); }
        let hit = match &v[i].body {
            MatchArmBody::Expr(x) => invalidates_in_expr(x, ipa, f),
            MatchArmBody::Block(b) => invalidates_in_block(b, ipa, f),
        };
        if hit {
            proof { lemma_invalidates_arms_mono(*v, i as int + 1, v.len() as int, ipa_view(ipa), f@); }
            return true;
        }
        i = i + 1;
    }
    false
}

/// Executable form of `invalidates_block`.
pub fn invalidates_in_block(b: &Block, ipa: Option<(&WriteSets, &str)>, f: &str) -> (r: bool)
    ensures
        r == invalidates_block(*b, ipa_view(ipa), f@),
    decreases b, 0int,
{
    if invalidates_in_stmts(&b.stmts, ipa, f) {
        return true;
    }
    match &b.trailing {
        Some(t) => invalidates_in_expr(t, ipa, f),
        None => false,
    }
}

fn invalidates_in_stmts(v: &Vec<Stmt>, ipa: Option<(&WriteSets, &str)>, f: &str) -> (r: bool)
    ensures
        r == invalidates_stmts(*v, v.len() as int, ipa_view(ipa), f@),
    decreases v, v.len(),
{
    let mut i: usize = 0;
    while i < v.len()
        invariant
            i <= v.len(),
            !invalidates_stmts(*v, i as int, ipa_view(ipa), f@),
        decreases v.len() - i,
    {
        proof { assert(decreases_to!(*v => v[i as int])); }
        if invalidates_in_stmt(&v[i], ipa, f) {
            proof { lemma_invalidates_stmts_mono(*v, i as int + 1, v.len() as int, ipa_view(ipa), f@); }
            return true;
        }
        i = i + 1;
    }
    false
}

/// Executable form of `invalidates_stmt`.
pub fn invalidates_in_stmt(s: &Stmt, ipa: Option<(&WriteSets, &str)>, f: &str) -> (r: bool)
    ensures
        r == invalidates_stmt(*s, ipa_view(ipa), f@),
    decreases s, 0int,
{
    match s {
        Stmt::Let(d) => invalidates_in_expr(&d.value, ipa, f),
        Stmt::Assign { target, value, .. } => {
            invalidates_in_expr(target, ipa, f) || invalidates_in_expr(value, ipa, f)
        },
        Stmt::Expr(x) => invalidates_in_expr(x, ipa, f),
        Stmt::Return { value, .. } => match value {
            Some(x) => invalidates_in_expr(x, ipa, f),
            None => false,
        },
        _ => false,
    }
}

proof fn lemma_invalidates_exprs_mono(v: Vec<Expr>, i: int, j: int, ctx: Option<IpaView>, f: Seq<char>)
    requires
        0 <= i <= j <= v.len(),
        invalidates_exprs(v, i, ctx, f),
    ensures
        invalidates_exprs(v, j, ctx, f),
    decreases j - i,
{
    if i < j {
        lemma_invalidates_exprs_mono(v, i, j - 1, ctx, f);
    }
}

proof fn lemma_invalidates_fields_mono(v: Vec<RecordLitField>, i: int, j: int, ctx: Option<IpaView>, f: Seq<char>)
    requires
        0 <= i <= j <= v.len(),
        invalidates_fields(v, i, ctx, f),
    ensures
        invalidates_fields(v, j, ctx, f),
    decreases j - i,
{
    if i < j {
        lemma_invalidates_fields_mono(v, i, j - 1, ctx, f);
    }
}

proof fn lemma_invalidates_arms_mono(v: Vec<MatchArm>, i: int, j: int, ctx: Option<IpaView>, f: Seq<char>)
    requires
        0 <= i <= j <= v.len(),
        invalidates_arms(v, i, ctx, f),
    ensures
        invalidates_arms(v, j, ctx, f),
    decreases j - i,
{
    if i < j {
        lemma_invalidates_arms_mono(v, i, j - 1, ctx, f);
    }
}

proof fn lemma_invalidates_stmts_mono(v: Vec<Stmt>, i: int, j: int, ctx: Option<IpaView>, f: Seq<char>)
    requires
        0 <= i <= j <= v.len(),
        invalidates_stmts(v, i, ctx, f),
    ensures
        invalidates_stmts(v, j, ctx, f),
    decreases j - i,
{
    if i < j {
        lemma_invalidates_stmts_mono(v, i, j - 1, ctx, f);
    }
}

} // verus!
