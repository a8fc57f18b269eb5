//! Expressions: trees of column references, literals, aliases and calls.
use std::sync::Arc;
use vstd::prelude::*;

verus! {

/// A shared expression.
pub type ExprRef = Arc<Expr>;

/// An expression tree.
#[derive(Debug, PartialEq, Eq)]
pub enum Expr {
    /// A reference to the input column of that name.
    Column(String),
    /// An integer constant.
    Literal(i64),
    /// The inner expression under another name.
    Alias(ExprRef, String),
    /// A built-in function applied to its inputs.
    Function { name: String, inputs: Vec<ExprRef> },
    /// A user-defined function applied to its inputs.
    Udf { name: String, inputs: Vec<ExprRef> },
}

/// An expression as a mathematical tree.
pub enum ExprView {
    Column(Seq<char>),
    Literal(i64),
    Alias(Box<ExprView>, Seq<char>),
    Function(Seq<char>, Seq<ExprView>),
    Udf(Seq<char>, Seq<ExprView>),
}

/// The tree an expression stands for.
pub open spec fn expr_view(e: Expr) -> ExprView
    decreases e,
{
    match e {
        Expr::Column(n) => ExprView::Column(n@),
        Expr::Literal(v) => ExprView::Literal(v),
        Expr::Alias(c, n) => ExprView::Alias(Box::new(expr_view(*c)), n@),
        Expr::Function { name, inputs } => ExprView::Function(name@, exprs_view(inputs@)),
        Expr::Udf { name, inputs } => ExprView::Udf(name@, exprs_view(inputs@)),
    }
}

/// The trees a list of expressions stands for.
pub open spec fn exprs_view(s: Seq<ExprRef>) -> Seq<ExprView>
    decreases s,
{
    if s.len() == 0 {
        Seq::empty()
    } else {
        exprs_view(s.drop_last()).push(expr_view(*s.last()))
    }
}

impl View for Expr {
    type V = ExprView;

    open spec fn view(&self) -> ExprView {
        expr_view(*self)
    }
}

/// The output name of a literal.
pub open spec fn literal_name() -> Seq<char> {
    seq!['l', 'i', 't', 'e', 'r', 'a', 'l']
}

/// The output name of an expression: a column keeps its name, an alias
/// gives its own, a call is named after its first input.
pub open spec fn name_of(e: ExprView) -> Seq<char>
    decreases e,
{
    match e {
        ExprView::Column(n) => n,
        ExprView::Literal(_) => literal_name(),
        ExprView::Alias(_, n) => n,
        ExprView::Function(_, args) | ExprView::Udf(_, args) => if args.len() > 0 {
            name_of(args[0])
        } else {
            Seq::empty()
        },
    }
}

/// The output names of a list of expressions.
pub open spec fn names_of(s: Seq<ExprView>) -> Seq<Seq<char>> {
    s.map_values(|e: ExprView| name_of(e))
}

/// The names of the columns an expression reads, in pre-order, with repeats.
pub open spec fn column_refs(e: ExprView) -> Seq<Seq<char>>
    decreases e,
{
    match e {
        ExprView::Column(n) => seq![n],
        ExprView::Literal(_) => Seq::empty(),
        ExprView::Alias(c, _) => column_refs(*c),
        ExprView::Function(_, args) | ExprView::Udf(_, args) => column_refs_seq(args),
    }
}

/// The column references of a list of expressions, one list after the other.
pub open spec fn column_refs_seq(s: Seq<ExprView>) -> Seq<Seq<char>>
    decreases s,
{
    if s.len() == 0 {
        Seq::empty()
    } else {
        column_refs_seq(s.drop_last()) + column_refs(s.last())
    }
}

/// Whether the expression computes anything beyond renaming a column or a literal.
pub open spec fn needs_computation(e: ExprView) -> bool
    decreases e,
{
    match e {
        ExprView::Column(_) | ExprView::Literal(_) => false,
        ExprView::Alias(c, _) => needs_computation(*c),
        _ => true,
    }
}

/// Whether a user-defined function occurs in the expression.
pub open spec fn has_udf(e: ExprView) -> bool
    decreases e,
{
    match e {
        ExprView::Column(_) | ExprView::Literal(_) => false,
        ExprView::Alias(c, _) => has_udf(*c),
        ExprView::Udf(_, _) => true,
        ExprView::Function(_, args) => has_udf_seq(args),
    }
}

/// Whether a user-defined function occurs in one of the expressions.
pub open spec fn has_udf_seq(s: Seq<ExprView>) -> bool
    decreases s,
{
    if s.len() == 0 {
        false
    } else {
        has_udf_seq(s.drop_last()) || has_udf(s.last())
    }
}

/// A binding of names to expressions; a later pair overrides an earlier one.
pub type Bindings = Seq<(Seq<char>, ExprView)>;

/// The expression that `m` binds to `name`.
pub open spec fn lookup(m: Bindings, name: Seq<char>) -> Option<ExprView>
    decreases m.len(),
{
    if m.len() == 0 {
        None
    } else if m.last().0 == name {
        Some(m.last().1)
    } else {
        lookup(m.drop_last(), name)
    }
}

/// `e` with each column reference that `m` binds replaced by its expression.
pub open spec fn replace_columns(e: ExprView, m: Bindings) -> ExprView
    decreases e,
{
    match e {
        ExprView::Column(n) => match lookup(m, n) {
            Some(x) => x,
            None => e,
        },
        ExprView::Literal(_) => e,
        ExprView::Alias(c, n) => ExprView::Alias(Box::new(replace_columns(*c, m)), n),
        ExprView::Function(name, args) => ExprView::Function(name, replace_columns_seq(args, m)),
        ExprView::Udf(name, args) => ExprView::Udf(name, replace_columns_seq(args, m)),
    }
}

/// `replace_columns` on each expression of a list.
pub open spec fn replace_columns_seq(s: Seq<ExprView>, m: Bindings) -> Seq<ExprView>
    decreases s,
{
    if s.len() == 0 {
        Seq::empty()
    } else {
        replace_columns_seq(s.drop_last(), m).push(replace_columns(s.last(), m))
    }
}


/// The text of each string of a list.
pub open spec fn strings_view(s: Seq<String>) -> Seq<Seq<char>> {
    s.map_values(|x: String| x@)
}

/// A list of name and expression pairs as bindings.
pub open spec fn bindings_view(s: Seq<(String, ExprRef)>) -> Bindings {
    s.map_values(|p: (String, ExprRef)| (p.0@, (*p.1)@))
}

pub proof fn lemma_exprs_view_push(s: Seq<ExprRef>, x: ExprRef)
    ensures
        exprs_view(s.push(x)) == exprs_view(s).push((*x)@),
{
    assert(s.push(x).drop_last() =~= s);
}

pub proof fn lemma_exprs_view_index(s: Seq<ExprRef>)
    ensures
        exprs_view(s).len() == s.len(),
        forall|i: int| 0 <= i < s.len() ==> #[trigger] exprs_view(s)[i] == (*s[i])@,
    decreases s.len(),
{
    if s.len() > 0 {
        lemma_exprs_view_index(s.drop_last());
    }
}

pub proof fn lemma_exprs_view_prefix(s: Seq<ExprRef>, i: int)
    requires
        0 <= i < s.len(),
    ensures
        exprs_view(s.subrange(0, i + 1)) == exprs_view(s.subrange(0, i)).push((*s[i])@),
{
    assert(s.subrange(0, i + 1).drop_last() =~= s.subrange(0, i));
}

proof fn lemma_column_refs_seq_push(s: Seq<ExprView>, x: ExprView)
    ensures
        column_refs_seq(s.push(x)) == column_refs_seq(s) + column_refs(x),
{
    assert(s.push(x).drop_last() =~= s);
}

proof fn lemma_has_udf_seq_push(s: Seq<ExprView>, x: ExprView)
    ensures
        has_udf_seq(s.push(x)) == (has_udf_seq(s) || has_udf(x)),
{
    assert(s.push(x).drop_last() =~= s);
}

pub proof fn lemma_replace_columns_seq_push(s: Seq<ExprView>, x: ExprView, m: Bindings)
    ensures
        replace_columns_seq(s.push(x), m) == replace_columns_seq(s, m).push(replace_columns(x, m)),
{
    assert(s.push(x).drop_last() =~= s);
}

/// A reference to the column `name`.
pub fn resolved_col(name: String) -> (r: ExprRef)
    ensures
        (*r)@ == ExprView::Column(name@),
{
    Arc::new(Expr::Column(name))
}

/// The integer constant `v`.
pub fn lit(v: i64) -> (r: ExprRef)
    ensures
        (*r)@ == ExprView::Literal(v),
{
    Arc::new(Expr::Literal(v))
}

impl Expr {
    /// The output name of the expression.
    pub fn name(&self) -> (r: &str)
        ensures
            r@ == name_of(self@),
        decreases self,
    {
        match self {
            Expr::Column(n) => n.as_str(),
            Expr::Literal(_) => {
                let r = "literal";
                proof {
                    reveal_strlit("literal");
                    assert(r@ =~= literal_name());
                }
                r
            },
            Expr::Alias(_, n) => n.as_str(),
            Expr::Function { inputs, .. } | Expr::Udf { inputs, .. } => {
                proof {
                    lemma_exprs_view_index(inputs@);
                }
                if inputs.len() > 0 {
                    inputs[0].name()
                } else {
                    let r = "";
                    proof {
                        reveal_strlit("");
                        assert(r@ =~= Seq::<char>::empty());
                    }
                    r
                }
            },
        }
    }

    /// This expression under the name `name`.
    pub fn alias(self: ExprRef, name: String) -> (r: ExprRef)
        ensures
            (*r)@ == ExprView::Alias(Box::new((*self)@), name@),
    {
        Arc::new(Expr::Alias(self, name))
    }
}

/// The names of the columns that `e` reads, in pre-order, with repeats.
pub fn get_required_columns(e: &ExprRef) -> (r: Vec<String>)
    ensures
        strings_view(r@) == column_refs((**e)@),
    decreases **e,
{
    match &**e {
        Expr::Column(n) => {
            let mut v: Vec<String> = Vec::new();
            v.push(n.clone());
            assert(strings_view(v@) =~= seq![n@]);
            v
        },
        Expr::Literal(_) => {
            let v: Vec<String> = Vec::new();
            assert(strings_view(v@) =~= Seq::<Seq<char>>::empty());
            v
        },
        Expr::Alias(c, _) => get_required_columns(c),
        Expr::Function { inputs, .. } | Expr::Udf { inputs, .. } => required_columns_all(inputs),
    }
}

pub(crate) fn required_columns_all(inputs: &Vec<ExprRef>) -> (r: Vec<String>)
    ensures
        strings_view(r@) == column_refs_seq(exprs_view(inputs@)),
    decreases inputs@,
{
    let mut out: Vec<String> = Vec::new();
    let mut i: usize = 0;
    assert(strings_view(out@) =~= column_refs_seq(exprs_view(inputs@.subrange(0, 0))));
    while i < inputs.len()
        invariant
            0 <= i <= inputs.len(),
            strings_view(out@) == column_refs_seq(exprs_view(inputs@.subrange(0, i as int))),
        decreases inputs.len() - i,
    {
        let mut sub = get_required_columns(&inputs[i]);
        proof {
            lemma_exprs_view_prefix(inputs@, i as int);
            lemma_column_refs_seq_push(exprs_view(inputs@.subrange(0, i as int)), (*inputs@[i as int])@);
        }
        let ghost before = out@;
        out.append(&mut sub);
        assert(strings_view(out@) =~= strings_view(before) + column_refs((*inputs@[i as int])@));
        i = i + 1;
    }
    assert(inputs@.subrange(0, inputs@.len() as int) =~= inputs@);
    out
}

/// Whether `e` computes anything beyond renaming a column or a literal.
pub fn requires_computation(e: &ExprRef) -> (r: bool)
    ensures
        r == needs_computation((**e)@),
    decreases **e,
{
    match &**e {
        Expr::Column(_) | Expr::Literal(_) => false,
        Expr::Alias(c, _) => requires_computation(c),
        _ => true,
    }
}

/// Whether a user-defined function occurs anywhere in `e`.
pub fn contains_udf_call(e: &ExprRef) -> (r: bool)
    ensures
        r == has_udf((**e)@),
    decreases **e,
{
    match &**e {
        Expr::Column(_) | Expr::Literal(_) => false,
        Expr::Alias(c, _) => contains_udf_call(c),
        Expr::Udf { .. } => true,
        Expr::Function { inputs, .. } => contains_udf_any(inputs),
    }
}

fn contains_udf_any(inputs: &Vec<ExprRef>) -> (r: bool)
    ensures
        r == has_udf_seq(exprs_view(inputs@)),
    decreases inputs@,
{
    let mut i: usize = 0;
    assert(!has_udf_seq(exprs_view(inputs@.subrange(0, 0))));
    while i < inputs.len()
        invariant
            0 <= i <= inputs.len(),
            !has_udf_seq(exprs_view(inputs@.subrange(0, i as int))),
        decreases inputs.len() - i,
    {
        let found = contains_udf_call(&inputs[i]);
        proof {
            lemma_exprs_view_prefix(inputs@, i as int);
            lemma_has_udf_seq_push(exprs_view(inputs@.subrange(0, i as int)), (*inputs@[i as int])@);
        }
        if found {
            proof {
                lemma_has_udf_seq_grows(exprs_view(inputs@), exprs_view(inputs@.subrange(0, i + 1)), inputs@, i + 1);
            }
            return true;
        }
        i = i + 1;
    }
    assert(inputs@.subrange(0, inputs@.len() as int) =~= inputs@);
    false
}

proof fn lemma_has_udf_seq_grows(all: Seq<ExprView>, pre: Seq<ExprView>, s: Seq<ExprRef>, k: int)
    requires
        0 <= k <= s.len(),
        all == exprs_view(s),
        pre == exprs_view(s.subrange(0, k)),
        has_udf_seq(pre),
    ensures
        has_udf_seq(all),
    decreases s.len() - k,
{
    if k < s.len() {
        lemma_exprs_view_prefix(s, k);
        lemma_has_udf_seq_push(pre, (*s[k])@);
        lemma_has_udf_seq_grows(all, exprs_view(s.subrange(0, k + 1)), s, k + 1);
    } else {
        assert(s.subrange(0, k) =~= s);
    }
}

fn lookup_binding(m: &Vec<(String, ExprRef)>, name: &String) -> (r: Option<ExprRef>)
    ensures
        match (r, lookup(bindings_view(m@), name@)) {
            (Some(x), Some(y)) => (*x)@ == y,
            (None, None) => true,
            _ => false,
        },
{
    let mut i: usize = m.len();
    assert(m@.subrange(0, m@.len() as int) =~= m@);
    while i > 0
        invariant
            0 <= i <= m.len(),
            lookup(bindings_view(m@), name@) == lookup(bindings_view(m@.subrange(0, i as int)), name@),
        decreases i,
    {
        let ghost pre = m@.subrange(0, i as int);
        assert(bindings_view(pre).drop_last() =~= bindings_view(m@.subrange(0, i - 1)));
        if m[i - 1].0 == *name {
            return Some(m[i - 1].1.clone());
        }
        i = i - 1;
    }
    assert(bindings_view(m@.subrange(0, 0)) =~= Seq::<(Seq<char>, ExprView)>::empty());
    None
}

/// `e` with each column reference that `m` binds replaced by its
/// expression; the last pair for a name wins.
pub fn replace_columns_with_expressions(e: &ExprRef, m: &Vec<(String, ExprRef)>) -> (r: ExprRef)
    ensures
        (*r)@ == replace_columns((**e)@, bindings_view(m@)),
    decreases **e,
{
    match &**e {
        Expr::Column(n) => match lookup_binding(m, n) {
            Some(x) => x,
            None => e.clone(),
        },
        Expr::Literal(_) => e.clone(),
        Expr::Alias(c, n) => Arc::new(Expr::Alias(replace_columns_with_expressions(c, m), n.clone())),
        Expr::Function { name, inputs } => {
            let out = replace_all(inputs, m);
            Arc::new(Expr::Function { name: name.clone(), inputs: out })
        },
        Expr::Udf { name, inputs } => {
            let out = replace_all(inputs, m);
            Arc::new(Expr::Udf { name: name.clone(), inputs: out })
        },
    }
}

fn replace_all(inputs: &Vec<ExprRef>, m: &Vec<(String, ExprRef)>) -> (r: Vec<ExprRef>)
    ensures
        exprs_view(r@) == replace_columns_seq(exprs_view(inputs@), bindings_view(m@)),
    decreases inputs@,
{
    let mut out: Vec<ExprRef> = Vec::new();
    let mut i: usize = 0;
    assert(exprs_view(out@) =~= replace_columns_seq(exprs_view(inputs@.subrange(0, 0)), bindings_view(m@)));
    while i < inputs.len()
        invariant
            0 <= i <= inputs.len(),
            exprs_view(out@) == replace_columns_seq(exprs_view(inputs@.subrange(0, i as int)), bindings_view(m@)),
        decreases inputs.len() - i,
    {
        let x = replace_columns_with_expressions(&inputs[i], m);
        proof {
            lemma_exprs_view_prefix(inputs@, i as int);
            lemma_replace_columns_seq_push(exprs_view(inputs@.subrange(0, i as int)), (*inputs@[i as int])@, bindings_view(m@));
            lemma_exprs_view_push(out@, x);
        }
        out.push(x);
        i = i + 1;
    }
    assert(inputs@.subrange(0, inputs@.len() as int) =~= inputs@);
    out
}

} // verus!
