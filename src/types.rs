use vstd::prelude::*;

verus! {

broadcast use vstd::std_specs::vec::group_vec_axioms, vstd::seq::group_seq_axioms;

/// The mathematical form of a [`Type`]: names as character sequences and
/// signatures as sequences of types.
pub enum Ty {
    Basic(Seq<char>),
    Function(Seq<Ty>, Seq<Ty>),
    Quotation(Seq<Ty>, Seq<Ty>),
}

/// A type of the checked language.
#[derive(Debug)]
pub enum Type {
    /// A nominal type, named by a word.
    Basic(String),
    /// The signature of a callable word: it consumes `inputs` from the top of
    /// the stack and produces `outputs`.
    Function { inputs: Vec<Type>, outputs: Vec<Type> },
    /// A first-class function value occupying one stack slot.
    Quotation { inputs: Vec<Type>, outputs: Vec<Type> },
}

pub open spec fn ty_of(t: Type) -> Ty
    decreases t,
{
    match t {
        Type::Basic(name) => Ty::Basic(name@),
        Type::Function { inputs, outputs } => Ty::Function(tys_of(inputs@), tys_of(outputs@)),
        Type::Quotation { inputs, outputs } => Ty::Quotation(tys_of(inputs@), tys_of(outputs@)),
    }
}

pub open spec fn tys_of(ts: Seq<Type>) -> Seq<Ty>
    decreases ts,
{
    if ts.len() == 0 {
        Seq::empty()
    } else {
        tys_of(ts.drop_last()).push(ty_of(ts.last()))
    }
}

impl View for Type {
    type V = Ty;

    open spec fn view(&self) -> Ty {
        ty_of(*self)
    }
}

/// The model of a sequence of types has one entry per type.
pub broadcast proof fn lemma_tys_of_len(ts: Seq<Type>)
    ensures
        #[trigger] tys_of(ts).len() == ts.len(),
    decreases ts.len(),
{
    if ts.len() > 0 {
        lemma_tys_of_len(ts.drop_last());
    }
}

/// The model of a sequence of types is taken entry by entry.
pub broadcast proof fn lemma_tys_of_index(ts: Seq<Type>, i: int)
    requires
        0 <= i < ts.len(),
    ensures
        #[trigger] tys_of(ts)[i] == ty_of(ts[i]),
    decreases ts.len(),
{
    lemma_tys_of_len(ts.drop_last());
    if i < ts.len() - 1 {
        lemma_tys_of_index(ts.drop_last(), i);
    }
}

/// Taking the model commutes with taking a subrange.
pub proof fn lemma_tys_of_subrange(ts: Seq<Type>, i: int, j: int)
    requires
        0 <= i <= j <= ts.len(),
    ensures
        tys_of(ts.subrange(i, j)) == tys_of(ts).subrange(i, j),
{
    let sub = ts.subrange(i, j);
    lemma_tys_of_len(sub);
    lemma_tys_of_len(ts);
    assert forall|k: int| 0 <= k < j - i implies #[trigger] tys_of(sub)[k] == tys_of(ts).subrange(i, j)[k] by {
        lemma_tys_of_index(sub, k);
        lemma_tys_of_index(ts, i + k);
    }
    assert(tys_of(sub) =~= tys_of(ts).subrange(i, j));
}

/// Taking the model commutes with concatenation.
pub proof fn lemma_tys_of_add(a: Seq<Type>, b: Seq<Type>)
    ensures
        tys_of(a + b) == tys_of(a) + tys_of(b),
{
    lemma_tys_of_len(a);
    lemma_tys_of_len(b);
    lemma_tys_of_len(a + b);
    assert forall|k: int| 0 <= k < a.len() + b.len() implies #[trigger] tys_of(a + b)[k] == (tys_of(a) + tys_of(b))[k] by {
        lemma_tys_of_index(a + b, k);
        if k < a.len() {
            lemma_tys_of_index(a, k);
        } else {
            lemma_tys_of_index(b, k - a.len());
        }
    }
    assert(tys_of(a + b) =~= tys_of(a) + tys_of(b));
}

pub broadcast group group_tys_of {
    lemma_tys_of_len,
    lemma_tys_of_index,
}

impl Type {
    /// A copy of this type, equal to it in every part.
    pub fn copied(&self) -> (r: Type)
        ensures
            r@ == self@,
        decreases self,
    {
        match self {
            Type::Basic(name) => Type::Basic(name.clone()),
            Type::Function { inputs, outputs } => Type::Function {
                inputs: copy_types(inputs),
                outputs: copy_types(outputs),
            },
            Type::Quotation { inputs, outputs } => Type::Quotation {
                inputs: copy_types(inputs),
                outputs: copy_types(outputs),
            },
        }
    }
}

/// A copy of a sequence of types.
pub fn copy_types(ts: &Vec<Type>) -> (r: Vec<Type>)
    ensures
        tys_of(r@) == tys_of(ts@),
    decreases ts,
{
    broadcast use group_tys_of;

    let mut r: Vec<Type> = Vec::new();
    let mut i: usize = 0;
    while i < ts.len()
        invariant
            i <= ts.len(),
            tys_of(r@) =~= tys_of(ts@.subrange(0, i as int)),
        decreases ts.len() - i,
    {
        proof {
            assert(decreases_to!(ts => ts[i as int]));
        }
        let ghost before = r@;
        r.push(ts[i].copied());
        assert(r@.drop_last() =~= before);
        assert(ts@.subrange(0, i + 1).drop_last() =~= ts@.subrange(0, i as int));
        i += 1;
    }
    assert(ts@.subrange(0, ts.len() as int) =~= ts@);
    r
}

/// Whether two types are structurally equal.
pub fn same_type(a: &Type, b: &Type) -> (r: bool)
    ensures
        r == (a@ == b@),
    decreases a,
{
    match (a, b) {
        (Type::Basic(x), Type::Basic(y)) => *x == *y,
        (
            Type::Function { inputs: i1, outputs: o1 },
            Type::Function { inputs: i2, outputs: o2 },
        ) => {
            assert(i1@.subrange(0, i1.len() as int) =~= i1@);
            assert(o1@.subrange(0, o1.len() as int) =~= o1@);
            same_types_from(i1, 0, i2) && same_types_from(o1, 0, o2)
        },
        (
            Type::Quotation { inputs: i1, outputs: o1 },
            Type::Quotation { inputs: i2, outputs: o2 },
        ) => {
            assert(i1@.subrange(0, i1.len() as int) =~= i1@);
            assert(o1@.subrange(0, o1.len() as int) =~= o1@);
            same_types_from(i1, 0, i2) && same_types_from(o1, 0, o2)
        },
        _ => false,
    }
}

/// Whether the entries of `a` from `start` on equal those of `b`, in order.
pub fn same_types_from(a: &Vec<Type>, start: usize, b: &Vec<Type>) -> (r: bool)
    requires
        start <= a.len(),
    ensures
        r == (tys_of(a@.subrange(start as int, a.len() as int)) == tys_of(b@)),
    decreases a,
{
    broadcast use group_tys_of;

    let ghost rest = a@.subrange(start as int, a.len() as int);
    if a.len() - start != b.len() {
        assert(tys_of(rest).len() != tys_of(b@).len());
        return false;
    }
    let mut i: usize = 0;
    while i < b.len()
        invariant
            start + b.len() == a.len(),
            i <= b.len(),
            rest == a@.subrange(start as int, a.len() as int),
            forall|k: int| 0 <= k < i ==> #[trigger] tys_of(rest)[k] == tys_of(b@)[k],
        decreases b.len() - i,
    {
        proof {
            assert(decreases_to!(a => a[start + i]));
        }
        let same = same_type(&a[start + i], &b[i]);
        assert(rest[i as int] == a@[start + i]);
        proof {
            lemma_tys_of_index(rest, i as int);
            lemma_tys_of_index(b@, i as int);
        }
        if !same {
            return false;
        }
        i += 1;
    }
    assert(tys_of(rest) =~= tys_of(b@));
    true
}

impl PartialEq for Type {
    fn eq(&self, other: &Type) -> (r: bool) {
        same_type(self, other)
    }
}

impl Eq for Type {

}

impl Clone for Type {
    fn clone(&self) -> (r: Type)
        ensures
            r@ == self@,
    {
        self.copied()
    }
}

impl vstd::std_specs::cmp::PartialEqSpecImpl for Type {
    open spec fn obeys_eq_spec() -> bool {
        true
    }

    open spec fn eq_spec(&self, other: &Type) -> bool {
        self@ == other@
    }
}

} // verus!
