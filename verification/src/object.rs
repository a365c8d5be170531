use vstd::prelude::*;
use std::rc::Rc;

verus! {

// ---------------------------------------------------------------------------
// Ghost model
// ---------------------------------------------------------------------------
/// The mathematical value of an association entry's payload.
pub enum AssocValV {
    Str(Seq<char>),
    Num(u64),
}

/// The mathematical value of a user-defined callable.
pub struct FunctionV {
    pub is_macro: bool,
    pub params: Seq<Seq<char>>,
    pub body: Seq<NodeV>,
}

/// The mathematical value of a node: the same tagged shape as [`Node`], with
/// sequences in place of strings, lists and vectors.
pub enum NodeV {
    Symbol(Seq<char>),
    Number(u64),
    Str(Seq<char>),
    List(Seq<NodeV>),
    Function(FunctionV),
    Empty,
    Assoc(Seq<(Seq<char>, AssocValV)>),
}

/// The mathematical value of a native callable's tag.
///
/// `Builtin` is an exec enum of unit variants, so it stands for itself.
pub enum CallableV {
    Builtin(Builtin),
    User(FunctionV),
}

/// The mathematical value of a symbol cell.
pub struct SymbolV {
    pub name: Seq<char>,
    pub value: Option<NodeV>,
    pub function: Option<CallableV>,
    pub properties: Option<Seq<(Seq<char>, NodeV)>>,
}

// ---------------------------------------------------------------------------
// Executable types
// ---------------------------------------------------------------------------
/// One cell of a persistent singly linked list.
pub struct ListNode {
    pub elem: Node,
    pub next: Option<Rc<ListNode>>,
}

/// A program: the list of a source text's top-level forms.
pub type Program = ConsList;

/// A persistent singly linked list of nodes with structural sharing:
/// `append` builds a new head cell in front of the shared tail, so the
/// original list is never changed by building on it.
pub struct ConsList {
    pub head: Option<Rc<ListNode>>,
}

/// The payload of one association entry: captured process results hold
/// strings and numbers.
pub enum AssocVal {
    Str(String),
    Num(u64),
}

/// A user-defined callable: ordered parameter names and a body; a macro
/// receives its arguments unevaluated.
pub struct Function {
    pub is_macro: bool,
    pub params: Vec<String>,
    pub body: ConsList,
}

/// The tag of a native callable baked into the evaluator.
#[derive(Copy, Clone, PartialEq, Eq, Structural, Debug)]
pub enum Builtin {
    Defvar,
    Print,
    Define,
    DefineInner,
    Exit,
    Pwd,
    Cd,
    Capc,
    Call,
    Pipe,
    Export,
    Unexport,
    Prompt,
    Glob,
}

/// What a symbol can be called as: a native builtin or a user definition.
pub enum Callable {
    Builtin(Builtin),
    User(Function),
}

/// The single runtime value type: the same type represents both syntax and
/// data.
pub enum Node {
    Symbol(String),
    Number(u64),
    Str(String),
    List(ConsList),
    Function(Function),
    Empty,
    Assoc(Vec<(String, AssocVal)>),
}

/// A mutable, identity-bearing symbol cell: a name, an optional bound value
/// and an optional bound callable.  Cells live in the environment's arena and
/// are shared by index, so a mutation is visible through every reference.
pub struct Symbol {
    pub name: String,
    pub value: Option<Node>,
    pub function: Option<Callable>,
    /// A lazily-created side table for plist-style metadata.
    pub properties: Option<Vec<(String, Node)>>,
}

// ---------------------------------------------------------------------------
// Views
// ---------------------------------------------------------------------------
/// The mathematical value of an association payload.
pub open spec fn assoc_val_view(v: AssocVal) -> AssocValV {
    match v {
        AssocVal::Str(s) => AssocValV::Str(s@),
        AssocVal::Num(n) => AssocValV::Num(n),
    }
}

/// The sequence of element values a list cell begins.
pub open spec fn lnode_seq(n: ListNode) -> Seq<NodeV>
    decreases n,
{
    match n.next {
        Option::None => seq![node_view(n.elem)],
        Option::Some(rc) => seq![node_view(n.elem)] + lnode_seq(*rc),
    }
}

/// The sequence of element values of a list.
pub open spec fn cons_view(l: ConsList) -> Seq<NodeV>
    decreases l,
{
    match l.head {
        Option::None => Seq::<NodeV>::empty(),
        Option::Some(rc) => lnode_seq(*rc),
    }
}

/// The mathematical value of a user-defined callable.
pub open spec fn fun_view(f: Function) -> FunctionV
    decreases f,
{
    FunctionV {
        is_macro: f.is_macro,
        params: f.params@.map_values(|s: String| s@),
        body: cons_view(f.body),
    }
}

/// The mathematical value of a node.
pub open spec fn node_view(n: Node) -> NodeV
    decreases n,
{
    match n {
        Node::Symbol(s) => NodeV::Symbol(s@),
        Node::Number(v) => NodeV::Number(v),
        Node::Str(s) => NodeV::Str(s@),
        Node::List(l) => NodeV::List(cons_view(l)),
        Node::Function(f) => NodeV::Function(fun_view(f)),
        Node::Empty => NodeV::Empty,
        Node::Assoc(v) => NodeV::Assoc(
            v@.map_values(|p: (String, AssocVal)| (p.0@, assoc_val_view(p.1))),
        ),
    }
}

/// The mathematical value of a callable.
pub open spec fn callable_view(c: Callable) -> CallableV {
    match c {
        Callable::Builtin(b) => CallableV::Builtin(b),
        Callable::User(f) => CallableV::User(fun_view(f)),
    }
}

/// The mathematical value of a symbol cell.
pub open spec fn symbol_view(s: Symbol) -> SymbolV {
    SymbolV {
        name: s.name@,
        value: match s.value {
            Option::None => Option::None,
            Option::Some(n) => Option::Some(node_view(n)),
        },
        function: match s.function {
            Option::None => Option::None,
            Option::Some(c) => Option::Some(callable_view(c)),
        },
        properties: match s.properties {
            Option::None => Option::None,
            Option::Some(v) => Option::Some(
                v@.map_values(|p: (String, Node)| (p.0@, node_view(p.1))),
            ),
        },
    }
}

impl View for ConsList {
    type V = Seq<NodeV>;

    open spec fn view(&self) -> Seq<NodeV> {
        cons_view(*self)
    }
}

impl View for Node {
    type V = NodeV;

    open spec fn view(&self) -> NodeV {
        node_view(*self)
    }
}

impl View for Function {
    type V = FunctionV;

    open spec fn view(&self) -> FunctionV {
        fun_view(*self)
    }
}

impl View for Callable {
    type V = CallableV;

    open spec fn view(&self) -> CallableV {
        callable_view(*self)
    }
}

impl View for Symbol {
    type V = SymbolV;

    open spec fn view(&self) -> SymbolV {
        symbol_view(*self)
    }
}

// ---------------------------------------------------------------------------
// List operations
// ---------------------------------------------------------------------------
fn opt_cell_clone(o: &Option<Rc<ListNode>>) -> (r: Option<Rc<ListNode>>)
    ensures
        r == *o,
{
    match o {
        Option::None => Option::None,
        Option::Some(rc) => Option::Some(Rc::clone(rc)),
    }
}

impl ConsList {
    /// The empty list.
    pub fn new() -> (r: ConsList)
        ensures
            r@ == Seq::<NodeV>::empty(),
    {
        ConsList { head: Option::None }
    }

    /// Whether the list has no elements.
    pub fn is_empty(&self) -> (r: bool)
        ensures
            r == (self@.len() == 0),
    {
        match &self.head {
            Option::None => true,
            Option::Some(rc) => {
                proof {
                    assert(self@ == lnode_seq(**rc));
                    assert(self@.len() >= 1);
                }
                false
            },
        }
    }

    /// Puts an element in front of the list.  The original list is shared as
    /// the new list's tail and stays exactly as it was.
    pub fn append(&self, elem: Node) -> (r: ConsList)
        ensures
            r@ == seq![elem@] + self@,
    {
        let ghost ev = elem@;
        let cell = ListNode { elem, next: opt_cell_clone(&self.head) };
        proof {
            match &cell.next {
                Option::None => {
                    assert(lnode_seq(cell) == seq![ev]);
                    assert(lnode_seq(cell) =~= seq![ev] + self@);
                },
                Option::Some(rc) => {
                    assert(lnode_seq(cell) == seq![ev] + lnode_seq(**rc));
                },
            }
        }
        ConsList { head: Option::Some(Rc::new(cell)) }
    }

    /// The first element, if there is one.
    pub fn head(&self) -> (r: Option<&Node>)
        ensures
            match r {
                Option::Some(n) => self@.len() > 0 && n@ == self@[0],
                Option::None => self@.len() == 0,
            },
    {
        match &self.head {
            Option::None => Option::None,
            Option::Some(rc) => {
                proof {
                    assert(self@ == lnode_seq(**rc));
                }
                Option::Some(&rc.elem)
            },
        }
    }

    /// The list without its first element; the empty list stays empty.
    pub fn tail(&self) -> (r: ConsList)
        ensures
            self@.len() > 0 ==> r@ == self@.skip(1),
            self@.len() == 0 ==> r@ == Seq::<NodeV>::empty(),
    {
        match &self.head {
            Option::None => ConsList { head: Option::None },
            Option::Some(rc) => {
                let r = ConsList { head: opt_cell_clone(&rc.next) };
                proof {
                    assert(self@ == lnode_seq(**rc));
                    match &rc.next {
                        Option::None => {
                            assert(self@ =~= seq![node_view(rc.elem)]);
                            assert(r@ =~= self@.skip(1));
                        },
                        Option::Some(nx) => {
                            assert(self@ == seq![node_view(rc.elem)] + lnode_seq(**nx));
                            assert(r@ == lnode_seq(**nx));
                            assert(r@ =~= self@.skip(1));
                        },
                    }
                }
                r
            },
        }
    }

    /// The elements of the list as a vector, front first.
    pub fn to_vec(&self) -> (r: Vec<Node>)
        ensures
            r@.len() == self@.len(),
            forall|i: int| 0 <= i < self@.len() ==> #[trigger] r@[i]@ == self@[i],
    {
        let mut out: Vec<Node> = Vec::new();
        match &self.head {
            Option::None => {},
            Option::Some(rc) => {
                push_all(rc, &mut out);
                proof {
                    assert(self@ == lnode_seq(**rc));
                    assert forall|i: int| 0 <= i < self@.len() implies #[trigger] out@[i]@
                        == self@[i] by {
                        assert(out@[0 + i]@ == lnode_seq(**rc)[i]);
                    }
                }
            },
        }
        out
    }

    /// Builds a list holding the vector's elements in the same order.
    pub fn from_vec(v: &Vec<Node>) -> (r: ConsList)
        ensures
            r@.len() == v@.len(),
            forall|i: int| 0 <= i < v@.len() ==> #[trigger] r@[i] == v@[i]@,
    {
        let mut acc = ConsList::new();
        let mut j: usize = v.len();
        while j > 0
            invariant
                j <= v@.len(),
                acc@.len() == v@.len() - j,
                forall|i: int| 0 <= i < acc@.len() ==> #[trigger] acc@[i] == v@[j + i]@,
            decreases j,
        {
            j = j - 1;
            let ghost prev = acc@;
            acc = acc.append(node_clone(&v[j]));
            proof {
                assert(acc@ =~= seq![v@[j as int]@] + prev);
            }
        }
        acc
    }
}

/// Building on a list puts the new element in front and keeps every prior
/// element where it was, in order; together with `append` taking its
/// receiver by shared reference, building on a list never changes it.
pub proof fn lemma_append_order(l: Seq<NodeV>, x: NodeV)
    ensures
        (seq![x] + l).len() == l.len() + 1,
        (seq![x] + l)[0] == x,
        forall|i: int| 0 <= i < l.len() ==> (seq![x] + l)[i + 1] == l[i],
{
}

fn push_all(n: &ListNode, out: &mut Vec<Node>)
    ensures
        final(out)@.len() == old(out)@.len() + lnode_seq(*n).len(),
        forall|i: int| 0 <= i < old(out)@.len() ==> #[trigger] final(out)@[i] == old(out)@[i],
        forall|i: int|
            0 <= i < lnode_seq(*n).len() ==> #[trigger] final(out)@[old(out)@.len() + i]@
                == lnode_seq(*n)[i],
    decreases *n,
{
    let ghost base = out@.len() as int;
    let cloned = node_clone(&n.elem);
    out.push(cloned);
    match &n.next {
        Option::None => {
            proof {
                assert(lnode_seq(*n) =~= seq![node_view(n.elem)]);
                assert(out@[base] == cloned);
                assert forall|i: int| 0 <= i < lnode_seq(*n).len() implies #[trigger] out@[base
                    + i]@ == lnode_seq(*n)[i] by {
                    assert(i == 0);
                    assert(lnode_seq(*n)[0] == node_view(n.elem));
                }
            }
        },
        Option::Some(rc) => {
            let ghost mid = out@;
            push_all(rc, out);
            proof {
                assert(lnode_seq(*n) == seq![node_view(n.elem)] + lnode_seq(**rc));
                assert forall|i: int| 0 <= i < lnode_seq(*n).len() implies #[trigger] out@[base
                    + i]@ == lnode_seq(*n)[i] by {
                    if i == 0 {
                        assert(out@[base] == mid[base]);
                        assert(mid[base] == cloned);
                        assert(lnode_seq(*n)[0] == node_view(n.elem));
                    } else {
                        assert(out@[mid.len() + (i - 1)]@ == lnode_seq(**rc)[i - 1]);
                        assert(lnode_seq(*n)[i] == lnode_seq(**rc)[i - 1]);
                    }
                }
            }
        },
    }
}

// ---------------------------------------------------------------------------
// Clones
// ---------------------------------------------------------------------------
/// A copy of a list; the cells themselves are shared.
pub fn cons_clone(l: &ConsList) -> (r: ConsList)
    ensures
        r@ == l@,
{
    ConsList { head: opt_cell_clone(&l.head) }
}

/// A copy of an association payload.
pub fn assoc_val_clone(v: &AssocVal) -> (r: AssocVal)
    ensures
        assoc_val_view(r) == assoc_val_view(*v),
{
    match v {
        AssocVal::Str(s) => AssocVal::Str(s.clone()),
        AssocVal::Num(n) => AssocVal::Num(*n),
    }
}

/// A copy of a user-defined callable; the body cells are shared.
pub fn function_clone(f: &Function) -> (r: Function)
    ensures
        r@ == f@,
{
    let mut params: Vec<String> = Vec::new();
    let mut i: usize = 0;
    while i < f.params.len()
        invariant
            i <= f.params@.len(),
            params@.len() == i,
            forall|j: int| 0 <= j < i ==> #[trigger] params@[j]@ == f.params@[j]@,
        decreases f.params@.len() - i,
    {
        params.push(f.params[i].clone());
        i = i + 1;
    }
    let r = Function { is_macro: f.is_macro, params, body: cons_clone(&f.body) };
    proof {
        assert(r@.params =~= f@.params);
    }
    r
}

/// A copy of a node; list cells are shared, strings are copied.
pub fn node_clone(n: &Node) -> (r: Node)
    ensures
        r@ == n@,
{
    match n {
        Node::Symbol(s) => Node::Symbol(s.clone()),
        Node::Number(v) => Node::Number(*v),
        Node::Str(s) => Node::Str(s.clone()),
        Node::List(l) => Node::List(cons_clone(l)),
        Node::Function(f) => Node::Function(function_clone(f)),
        Node::Empty => Node::Empty,
        Node::Assoc(entries) => {
            let mut out: Vec<(String, AssocVal)> = Vec::new();
            let mut i: usize = 0;
            while i < entries.len()
                invariant
                    i <= entries@.len(),
                    out@.len() == i,
                    forall|j: int|
                        0 <= j < i ==> #[trigger] out@[j].0@ == entries@[j].0@ && assoc_val_view(
                            out@[j].1,
                        ) == assoc_val_view(entries@[j].1),
                decreases entries@.len() - i,
            {
                let e = &entries[i];
                out.push((e.0.clone(), assoc_val_clone(&e.1)));
                i = i + 1;
            }
            let r = Node::Assoc(out);
            proof {
                assert(node_view(r) == node_view(*n)) by {
                    let a = out@.map_values(|p: (String, AssocVal)| (p.0@, assoc_val_view(p.1)));
                    let b = entries@.map_values(
                        |p: (String, AssocVal)| (p.0@, assoc_val_view(p.1)),
                    );
                    assert(a =~= b);
                }
            }
            r
        },
    }
}

/// A copy of a callable.
pub fn callable_clone(c: &Callable) -> (r: Callable)
    ensures
        r@ == c@,
{
    match c {
        Callable::Builtin(b) => Callable::Builtin(*b),
        Callable::User(f) => Callable::User(function_clone(f)),
    }
}

// ---------------------------------------------------------------------------
// Rendering
// ---------------------------------------------------------------------------
/// The rendering of one association payload.
pub open spec fn disp_assoc_val(v: AssocValV) -> Seq<char> {
    match v {
        AssocValV::Str(s) => seq!['"'] + s + seq!['"'],
        AssocValV::Num(n) => crate::strutil::dec_chars(n as nat),
    }
}

/// The rendering of the entries of an association, separated by spaces.
pub open spec fn disp_assoc(s: Seq<(Seq<char>, AssocValV)>) -> Seq<char>
    decreases s.len(),
{
    if s.len() == 0 {
        Seq::<char>::empty()
    } else if s.len() == 1 {
        s[0].0 + seq![' '] + disp_assoc_val(s[0].1)
    } else {
        s[0].0 + seq![' '] + disp_assoc_val(s[0].1) + seq![' '] + disp_assoc(s.skip(1))
    }
}

/// The canonical parenthesized rendering of a value: symbols print as their
/// name, strings keep their quotes, lists are parenthesized with one space
/// between elements.
pub open spec fn disp(n: NodeV) -> Seq<char>
    decreases n,
{
    match n {
        NodeV::Symbol(s) => s,
        NodeV::Number(v) => crate::strutil::dec_chars(v as nat),
        NodeV::Str(s) => seq!['"'] + s + seq!['"'],
        NodeV::List(elems) => seq!['('] + disp_elems(elems) + seq![')'],
        NodeV::Function(_) => "function"@,
        NodeV::Empty => "()"@,
        NodeV::Assoc(entries) => seq!['('] + disp_assoc(entries) + seq![')'],
    }
}

/// The renderings of the elements of a list, separated by spaces.
pub open spec fn disp_elems(s: Seq<NodeV>) -> Seq<char>
    decreases s,
{
    if s.len() == 0 {
        Seq::<char>::empty()
    } else if s.len() == 1 {
        disp(s[0])
    } else {
        disp(s[0]) + seq![' '] + disp_elems(s.skip(1))
    }
}

/// The rendering of a value when it is handed to the outside as plain text:
/// a string's contents without quotes, a symbol's name, everything else its
/// canonical rendering.
pub open spec fn arg_chars(n: NodeV) -> Seq<char> {
    match n {
        NodeV::Symbol(s) => s,
        NodeV::Str(s) => s,
        _ => disp(n),
    }
}

fn push_quoted(out: &mut String, s: &String)
    ensures
        final(out)@ == old(out)@ + seq!['"'] + s@ + seq!['"'],
{
    crate::strutil::push_char(out, '"');
    out.append(s.as_str());
    crate::strutil::push_char(out, '"');
}

fn assoc_entries_display(entries: &Vec<(String, AssocVal)>, i: usize, out: &mut String)
    requires
        i <= entries@.len(),
    ensures
        final(out)@ == old(out)@ + disp_assoc(
            entries@.map_values(|p: (String, AssocVal)| (p.0@, assoc_val_view(p.1))).skip(i as int),
        ),
    decreases entries@.len() - i,
{
    let ghost m = entries@.map_values(|p: (String, AssocVal)| (p.0@, assoc_val_view(p.1)));
    if i < entries.len() {
        let e = &entries[i];
        out.append(e.0.as_str());
        crate::strutil::push_char(out, ' ');
        match &e.1 {
            AssocVal::Str(s) => push_quoted(out, s),
            AssocVal::Num(n) => {
                let d = crate::strutil::u64_to_dec(*n);
                out.append(d.as_str());
            },
        }
        if i + 1 < entries.len() {
            crate::strutil::push_char(out, ' ');
        }
        assoc_entries_display(entries, i + 1, out);
        proof {
            let t = m.skip(i as int);
            assert(t[0] == m[i as int]);
            assert(t.skip(1) =~= m.skip(i + 1));
            if i + 1 < entries@.len() {
                assert(t.len() > 1);
            } else {
                assert(t.len() == 1);
            }
        }
    } else {
        proof {
            assert(m.skip(i as int) =~= Seq::<(Seq<char>, AssocValV)>::empty());
        }
    }
}

fn lnode_display(n: &ListNode, out: &mut String)
    ensures
        final(out)@ == old(out)@ + disp_elems(lnode_seq(*n)),
    decreases *n,
{
    let s = node_display(&n.elem);
    out.append(s.as_str());
    match &n.next {
        Option::None => {
            proof {
                assert(lnode_seq(*n) =~= seq![node_view(n.elem)]);
            }
        },
        Option::Some(rc) => {
            crate::strutil::push_char(out, ' ');
            lnode_display(rc, out);
            proof {
                let t = lnode_seq(*n);
                assert(t == seq![node_view(n.elem)] + lnode_seq(**rc));
                assert(t.len() > 1);
                assert(t[0] == node_view(n.elem));
                assert(t.skip(1) =~= lnode_seq(**rc));
            }
        },
    }
}

/// Renders a value in its canonical parenthesized form.
pub fn node_display(n: &Node) -> (r: String)
    ensures
        r@ == disp(n@),
    decreases *n,
{
    match n {
        Node::Symbol(s) => s.clone(),
        Node::Number(v) => crate::strutil::u64_to_dec(*v),
        Node::Str(s) => {
            let mut out = String::new();
            push_quoted(&mut out, s);
            out
        },
        Node::List(l) => {
            let mut out = String::new();
            crate::strutil::push_char(&mut out, '(');
            match &l.head {
                Option::None => {
                    proof {
                        assert(disp_elems(cons_view(*l)) =~= Seq::<char>::empty());
                    }
                },
                Option::Some(rc) => {
                    lnode_display(rc, &mut out);
                },
            }
            crate::strutil::push_char(&mut out, ')');
            proof {
                assert(out@ =~= seq!['('] + disp_elems(cons_view(*l)) + seq![')']);
            }
            out
        },
        Node::Function(_) => String::from_str("function"),
        Node::Empty => String::from_str("()"),
        Node::Assoc(entries) => {
            let mut out = String::new();
            crate::strutil::push_char(&mut out, '(');
            assoc_entries_display(entries, 0, &mut out);
            crate::strutil::push_char(&mut out, ')');
            proof {
                let m = entries@.map_values(|p: (String, AssocVal)| (p.0@, assoc_val_view(p.1)));
                assert(m.skip(0) =~= m);
                assert(out@ =~= seq!['('] + disp_assoc(m) + seq![')']);
            }
            out
        },
    }
}

/// Renders a value as the plain text handed to the outside: strings without
/// quotes, symbols as their name.
pub fn node_arg_string(n: &Node) -> (r: String)
    ensures
        r@ == arg_chars(n@),
{
    match n {
        Node::Symbol(s) => s.clone(),
        Node::Str(s) => s.clone(),
        _ => node_display(n),
    }
}

/// The name a value exposes for its shape, used in diagnostics.
pub open spec fn type_chars(n: NodeV) -> Seq<char> {
    match n {
        NodeV::Symbol(_) => "Symbol"@,
        NodeV::Number(_) => "Number"@,
        NodeV::Str(_) => "String"@,
        NodeV::List(_) => "List"@,
        NodeV::Function(_) => "Function"@,
        NodeV::Empty => "Empty"@,
        NodeV::Assoc(_) => "Map"@,
    }
}

impl Node {
    /// The canonical empty-list value.
    pub fn empty_list() -> (r: Node)
        ensures
            r@ == NodeV::List(Seq::<NodeV>::empty()),
    {
        Node::List(ConsList::new())
    }

    /// The name of this value's shape, used in diagnostics.
    pub fn type_str(&self) -> (r: &'static str)
        ensures
            r@ == type_chars(self@),
    {
        match self {
            Node::Symbol(_) => "Symbol",
            Node::Number(_) => "Number",
            Node::Str(_) => "String",
            Node::List(_) => "List",
            Node::Function(_) => "Function",
            Node::Empty => "Empty",
            Node::Assoc(_) => "Map",
        }
    }
}

/// The value a symbol cell evaluates to: its bound value, or a string of
/// its own name when it is unbound.
pub open spec fn symbol_value_view(s: SymbolV) -> NodeV {
    match s.value {
        Option::Some(v) => v,
        Option::None => NodeV::Str(s.name),
    }
}

/// What a symbol turns into when written out: its bound value as plain text,
/// or its own name when it is unbound.
pub open spec fn sym_val_chars(s: SymbolV) -> Seq<char> {
    match s.value {
        Option::Some(v) => arg_chars(v),
        Option::None => s.name,
    }
}

impl Symbol {
    /// A fresh unbound symbol cell; the name is case-normalized to upper
    /// case.
    pub fn new(name: &str) -> (r: Symbol)
        ensures
            r@.name == crate::strutil::upper_seq(name@),
            r@.value is None,
            r@.function is None,
            r@.properties is None,
    {
        Symbol {
            name: crate::strutil::to_upper_ascii(name),
            value: Option::None,
            function: Option::None,
            properties: Option::None,
        }
    }

    /// The symbol's case-normalized name.
    pub fn name(&self) -> (r: &str)
        ensures
            r@ == self@.name,
    {
        self.name.as_str()
    }

    /// The value the symbol evaluates to: its bound value, or a string of its
    /// own name when it is unbound.
    pub fn value(&self) -> (r: Node)
        ensures
            r@ == symbol_value_view(self@),
            match self@.value {
                Option::Some(v) => r@ == v,
                Option::None => r@ == NodeV::Str(self@.name),
            },
    {
        match &self.value {
            Option::Some(v) => node_clone(v),
            Option::None => Node::Str(self.name.clone()),
        }
    }

    /// The symbol's bound value as plain text, or its name when unbound.
    pub fn to_val_string(&self) -> (r: String)
        ensures
            r@ == sym_val_chars(self@),
    {
        match &self.value {
            Option::Some(v) => node_arg_string(v),
            Option::None => self.name.clone(),
        }
    }
}

} // verus!
