//! The static types of Yara and the type checker's rules over them.

use vstd::prelude::*;
use crate::text::{str_eq, push_str, chars_of, string_from_range};
use crate::strmap::StrMap;
use crate::env::{Environment, resolve};
use crate::ast::{BinOp, UnOp, Expr, Stmt, TypeAnnotation, Param, FieldDecl, expr_pos, stmt_pos};
use crate::builtins::{builtin_arity, lookup as builtin_lookup, lemma_builtin_arities};
use crate::text::{decimal, usize_to_decimal, joined, join_strs};
use crate::methods::{ReceiverKind, receiver_of_type, method_index, method_table, names_on, lemma_method_arities};
use crate::diagnostics::{Diagnostic, Span, Frame, frames_model, located_message, display_located};

verus! {

/// A static type.
#[derive(Debug)]
pub enum Type {
    Integer,
    Float,
    Boolean,
    String,
    Nil,
    Array(Box<Type>),
    Pointer(Box<Type>),
    /// An instance of a user-defined class, identified by class name.
    Instance(String),
}

/// The abstract value of a `Type`: the same shape, with a class name as its characters.
pub enum TypeModel {
    Integer,
    Float,
    Boolean,
    String,
    Nil,
    Array(Box<TypeModel>),
    Pointer(Box<TypeModel>),
    Instance(Seq<char>),
}

/// The abstract value of `t`.
pub open spec fn type_model(t: Type) -> TypeModel
    decreases t,
{
    match t {
        Type::Integer => TypeModel::Integer,
        Type::Float => TypeModel::Float,
        Type::Boolean => TypeModel::Boolean,
        Type::String => TypeModel::String,
        Type::Nil => TypeModel::Nil,
        Type::Array(e) => TypeModel::Array(Box::new(type_model(*e))),
        Type::Pointer(e) => TypeModel::Pointer(Box::new(type_model(*e))),
        Type::Instance(n) => TypeModel::Instance(n@),
    }
}

impl View for Type {
    type V = TypeModel;

    open spec fn view(&self) -> TypeModel {
        type_model(*self)
    }
}

/// The display name of a type: `Array<E>` and `Ptr<E>` for the compound
/// types, the class name for an instance, the primitive's name otherwise.
pub open spec fn type_display(t: TypeModel) -> Seq<char>
    decreases t,
{
    match t {
        TypeModel::Integer => "Integer"@,
        TypeModel::Float => "Float"@,
        TypeModel::Boolean => "Boolean"@,
        TypeModel::String => "String"@,
        TypeModel::Nil => "Nil"@,
        TypeModel::Array(e) => "Array<"@ + type_display(*e) + ">"@,
        TypeModel::Pointer(e) => "Ptr<"@ + type_display(*e) + ">"@,
        TypeModel::Instance(n) => n,
    }
}

/// Whether a value of type `value` may be stored where `declared` is
/// expected: the same type, the empty array `[]` (typed `Array<Nil>`) into
/// any array type, or `nil` into any pointer type.
pub open spec fn assignable(declared: TypeModel, value: TypeModel) -> bool {
    ||| declared == value
    ||| declared is Array && value == TypeModel::Array(Box::new(TypeModel::Nil))
    ||| declared is Pointer && value == TypeModel::Nil
}

impl Type {
    /// Structural equality of two types.
    pub fn same_as(&self, other: &Type) -> (r: bool)
        ensures
            r == (self@ == other@),
        decreases self,
    {
        match (self, other) {
            (Type::Integer, Type::Integer) => true,
            (Type::Float, Type::Float) => true,
            (Type::Boolean, Type::Boolean) => true,
            (Type::String, Type::String) => true,
            (Type::Nil, Type::Nil) => true,
            (Type::Array(a), Type::Array(b)) => a.same_as(b),
            (Type::Pointer(a), Type::Pointer(b)) => a.same_as(b),
            (Type::Instance(a), Type::Instance(b)) => str_eq(a.as_str(), b.as_str()),
            _ => false,
        }
    }

    /// Whether a value of type `value` may be stored where `self` is expected.
    pub fn accepts(&self, value: &Type) -> (r: bool)
        ensures
            r == assignable(self@, value@),
    {
        proof { reveal_with_fuel(type_model, 2); }
        if self.same_as(value) {
            return true;
        }
        match (self, value) {
            (Type::Array(_), Type::Array(e)) => match **e {
                Type::Nil => true,
                _ => false,
            },
            (Type::Pointer(_), Type::Nil) => true,
            _ => false,
        }
    }

    /// A copy of this type.
    pub fn duplicate(&self) -> (r: Type)
        ensures
            r@ == self@,
        decreases self,
    {
        match self {
            Type::Integer => Type::Integer,
            Type::Float => Type::Float,
            Type::Boolean => Type::Boolean,
            Type::String => Type::String,
            Type::Nil => Type::Nil,
            Type::Array(e) => Type::Array(Box::new(e.duplicate())),
            Type::Pointer(e) => Type::Pointer(Box::new(e.duplicate())),
            Type::Instance(n) => Type::Instance(n.clone()),
        }
    }

    /// The type's name as messages and annotations spell it.
    pub fn display_name(&self) -> (r: String)
        ensures
            r@ == type_display(self@),
        decreases self,
    {
        match self {
            Type::Integer => "Integer".to_owned(),
            Type::Float => "Float".to_owned(),
            Type::Boolean => "Boolean".to_owned(),
            Type::String => "String".to_owned(),
            Type::Nil => "Nil".to_owned(),
            Type::Array(e) => {
                let mut r = "Array<".to_owned();
                let inner = e.display_name();
                push_str(&mut r, inner.as_str());
                push_str(&mut r, ">");
                r
            },
            Type::Pointer(e) => {
                let mut r = "Ptr<".to_owned();
                let inner = e.display_name();
                push_str(&mut r, inner.as_str());
                push_str(&mut r, ">");
                r
            },
            Type::Instance(n) => n.clone(),
        }
    }
}

impl Clone for Type {
    fn clone(&self) -> (r: Type)
        ensures
            r@ == self@,
    {
        self.duplicate()
    }
}

impl PartialEq for Type {
    fn eq(&self, other: &Type) -> (r: bool) {
        self.same_as(other)
    }
}

impl vstd::std_specs::cmp::PartialEqSpecImpl for Type {
    open spec fn obeys_eq_spec() -> bool {
        true
    }

    open spec fn eq_spec(&self, other: &Type) -> bool {
        self@ == other@
    }
}

/// The primitive types' canonical names, in table order.
pub open spec fn primitive_names() -> Seq<Seq<char>> {
    seq!["Integer"@, "Float"@, "Boolean"@, "String"@, "Nil"@]
}

/// The primitive types' canonical annotation names, in table order.
pub fn primitive_type_names() -> (r: Vec<&'static str>)
    ensures
        r@.map_values(|s: &str| s@) == primitive_names(),
{
    let r = vec!["Integer", "Float", "Boolean", "String", "Nil"];
    assert(r@.map_values(|s: &str| s@) =~= primitive_names());
    r
}

/// The type an annotation name denotes, if it is a primitive or one of the
/// concrete array names (`IntArray`, `FloatArray`, `BoolArray`, `StringArray`).
pub open spec fn annotation_type(name: Seq<char>) -> Option<TypeModel> {
    if name == "Integer"@ {
        Some(TypeModel::Integer)
    } else if name == "Float"@ {
        Some(TypeModel::Float)
    } else if name == "Boolean"@ {
        Some(TypeModel::Boolean)
    } else if name == "String"@ {
        Some(TypeModel::String)
    } else if name == "Nil"@ {
        Some(TypeModel::Nil)
    } else if name == "IntArray"@ {
        Some(TypeModel::Array(Box::new(TypeModel::Integer)))
    } else if name == "FloatArray"@ {
        Some(TypeModel::Array(Box::new(TypeModel::Float)))
    } else if name == "BoolArray"@ {
        Some(TypeModel::Array(Box::new(TypeModel::Boolean)))
    } else if name == "StringArray"@ {
        Some(TypeModel::Array(Box::new(TypeModel::String)))
    } else {
        None
    }
}

impl Type {
    /// Resolves a canonical annotation name to a primitive or array type.
    pub fn from_annotation_name(name: &str) -> (r: Option<Type>)
        ensures
            r is None <==> annotation_type(name@) is None,
            r matches Some(t) ==> annotation_type(name@) == Some(t@),
    {
        proof { reveal_with_fuel(type_model, 2); }
        if str_eq(name, "Integer") {
            Some(Type::Integer)
        } else if str_eq(name, "Float") {
            Some(Type::Float)
        } else if str_eq(name, "Boolean") {
            Some(Type::Boolean)
        } else if str_eq(name, "String") {
            Some(Type::String)
        } else if str_eq(name, "Nil") {
            Some(Type::Nil)
        } else if str_eq(name, "IntArray") {
            Some(Type::Array(Box::new(Type::Integer)))
        } else if str_eq(name, "FloatArray") {
            Some(Type::Array(Box::new(Type::Float)))
        } else if str_eq(name, "BoolArray") {
            Some(Type::Array(Box::new(Type::Boolean)))
        } else if str_eq(name, "StringArray") {
            Some(Type::Array(Box::new(Type::String)))
        } else {
            None
        }
    }
}

/// A type failure at a line and column.
#[derive(Debug, Clone, PartialEq)]
pub struct TypeError {
    pub message: String,
    pub line: usize,
    pub column: usize,
}

impl TypeError {
    /// `line:column: message`, the error's one-line form.
    pub fn display(&self) -> (r: String)
        ensures
            r@ == located_message(self.line as nat, self.column as nat, self.message@),
    {
        display_located(self.line, self.column, self.message.as_str())
    }
}

impl Diagnostic for TypeError {
    open spec fn kind_spec(&self) -> Seq<char> {
        "type error"@
    }

    open spec fn message_spec(&self) -> Seq<char> {
        self.message@
    }

    open spec fn span_spec(&self) -> Span {
        Span::new_spec(self.line, self.column)
    }

    open spec fn frames_spec(&self) -> Seq<(Seq<char>, nat, nat)> {
        Seq::empty()
    }

    fn kind(&self) -> (r: &str)
        ensures
            r@ == "type error"@,
    {
        "type error"
    }

    fn message(&self) -> (r: &str)
        ensures
            r@ == self.message@,
    {
        self.message.as_str()
    }

    fn span(&self) -> (r: Span)
        ensures
            r == Span::new_spec(self.line, self.column),
    {
        Span::new(self.line, self.column)
    }

    /// No call stack: a stage error has no frames.
    fn frames(&self) -> (r: Vec<Frame>)
        ensures
            frames_model(r@) == self.frames_spec(),
    {
        let r: Vec<Frame> = Vec::new();
        assert(frames_model(r@) =~= Seq::<(Seq<char>, nat, nat)>::empty());
        r
    }
}

/// A function's parameter types and declared return type.
pub struct FunctionSig {
    pub param_types: Vec<Type>,
    pub return_type: Option<Type>,
}

/// A class's field types (instance variables and constants alike) and its
/// method signatures.
pub struct ClassInfo {
    pub fields: StrMap<Type>,
    pub methods: StrMap<FunctionSig>,
}

/// The static checker's state: the scope stack of variable types, the
/// top-level function signatures and the classes.
pub struct TypeChecker {
    env: Environment<Type>,
    functions: StrMap<FunctionSig>,
    classes: StrMap<ClassInfo>,
}

/// The types of a scope, by their views.
pub open spec fn scope_types(m: Map<Seq<char>, Type>) -> Map<Seq<char>, TypeModel> {
    m.map_values(|t: Type| t@)
}

/// The source symbol of an operator.
pub open spec fn binop_text(op: BinOp) -> Seq<char> {
    match op {
        BinOp::Add => "+"@,
        BinOp::Sub => "-"@,
        BinOp::Mul => "*"@,
        BinOp::Div => "/"@,
        BinOp::Eq => "=="@,
        BinOp::NotEq => "!="@,
        BinOp::Lt => "<"@,
        BinOp::Gt => ">"@,
        BinOp::LtEq => "<="@,
        BinOp::GtEq => ">="@,
    }
}

/// The operator's source symbol, for error messages.
pub fn binop_symbol(op: BinOp) -> (r: &'static str)
    ensures
        r@ == binop_text(op),
{
    match op {
        BinOp::Add => "+",
        BinOp::Sub => "-",
        BinOp::Mul => "*",
        BinOp::Div => "/",
        BinOp::Eq => "==",
        BinOp::NotEq => "!=",
        BinOp::Lt => "<",
        BinOp::Gt => ">",
        BinOp::LtEq => "<=",
        BinOp::GtEq => ">=",
    }
}

/// Integer or Float.
pub open spec fn is_numeric(t: TypeModel) -> bool {
    t == TypeModel::Integer || t == TypeModel::Float
}

/// The type of `left op right`, if the operands allow it: `String + String`
/// concatenates; arithmetic needs one numeric type on both sides and keeps
/// it; ordering needs one numeric type and gives `Boolean`; equality needs
/// one type, any type, and gives `Boolean`.
pub open spec fn binary_type(op: BinOp, left: TypeModel, right: TypeModel) -> Option<TypeModel> {
    match op {
        BinOp::Add | BinOp::Sub | BinOp::Mul | BinOp::Div => {
            if op == BinOp::Add && left == TypeModel::String && right == TypeModel::String {
                Some(TypeModel::String)
            } else if left == right && is_numeric(left) {
                Some(left)
            } else {
                None
            }
        },
        BinOp::Lt | BinOp::Gt | BinOp::LtEq | BinOp::GtEq => {
            if left == right && is_numeric(left) { Some(TypeModel::Boolean) } else { None }
        },
        BinOp::Eq | BinOp::NotEq => {
            if left == right { Some(TypeModel::Boolean) } else { None }
        },
    }
}

/// The message for operands an operator does not accept.
pub open spec fn operand_mismatch(op: BinOp, left: TypeModel, right: TypeModel) -> Seq<char> {
    "cannot apply `"@ + binop_text(op) + "` to `"@ + type_display(left) + "` and `"@ + type_display(right) + "`"@
}

/// The message for `if` branches whose values differ in type.
pub open spec fn branch_mismatch(a: TypeModel, b: TypeModel) -> Seq<char> {
    "branches of `if` return different types: `"@ + type_display(a) + "` vs `"@ + type_display(b) + "`"@
}

/// The message for an annotation naming no type.
pub open spec fn unknown_type(name: Seq<char>) -> Seq<char> {
    "unknown type `"@ + name + "`"@
}

impl TypeChecker {
    /// The variable types in scope, outermost scope first.
    pub closed spec fn scopes(&self) -> Seq<Map<Seq<char>, TypeModel>> {
        self.env.scopes().map_values(|m: Map<Seq<char>, Type>| scope_types(m))
    }

    /// The names of the known classes.
    pub closed spec fn class_names(&self) -> Set<Seq<char>> {
        self.classes@.dom()
    }

    /// The names of the known top-level functions.
    pub closed spec fn function_names(&self) -> Set<Seq<char>> {
        self.functions@.dom()
    }

    /// A checker with one empty global scope and no functions or classes.
    pub fn new() -> (r: TypeChecker)
        ensures
            r.scopes() == seq![Map::<Seq<char>, TypeModel>::empty()],
            r.class_names() == Set::<Seq<char>>::empty(),
            r.function_names() == Set::<Seq<char>>::empty(),
            r.state() == (TcState {
                scopes: seq![Map::<Seq<char>, TypeModel>::empty()],
                functions: Map::<Seq<char>, SigModel>::empty(),
                classes: Map::<Seq<char>, ClassModel>::empty(),
            }),
    {
        let r = TypeChecker { env: Environment::new(), functions: StrMap::new(), classes: StrMap::new() };
        assert(scope_types(Map::<Seq<char>, Type>::empty()) =~= Map::<Seq<char>, TypeModel>::empty());
        assert(r.scopes() =~= seq![Map::<Seq<char>, TypeModel>::empty()]);
        assert(r.class_names() =~= Set::<Seq<char>>::empty());
        assert(r.function_names() =~= Set::<Seq<char>>::empty());
        assert(r.state().functions =~= Map::<Seq<char>, SigModel>::empty());
        assert(r.state().classes =~= Map::<Seq<char>, ClassModel>::empty());
        r
    }

    /// The checker's state is made of its scopes, functions and classes:
    /// its scopes are `scopes()`, and its function and class tables are
    /// keyed by `function_names()` and `class_names()`.
    pub proof fn lemma_state_parts(&self)
        ensures
            self.state().scopes == self.scopes(),
            self.state().functions.dom() == self.function_names(),
            self.state().classes.dom() == self.class_names(),
    {
        assert(self.state().functions.dom() =~= self.function_names());
        assert(self.state().classes.dom() =~= self.class_names());
    }

    /// Turns an annotation's name into a type: a known class's name is an
    /// instance of it; otherwise a primitive or array name; anything else
    /// is an unknown type.
    pub fn resolve_type(&self, name: &str, line: usize, column: usize) -> (r: Result<Type, TypeError>)
        ensures
            self.class_names().contains(name@) ==> (r matches Ok(t) && t@ == TypeModel::Instance(name@)),
            agrees_type(r, annotation_resolves(self.state(), name@, line, column)),
        decreases name@.len(),
    {
        if self.classes.contains_key(name) {
            return Ok(Type::Instance(name.to_owned()));
        }
        let cs = chars_of(name);
        let n = cs.len();
        if n >= 5 && cs[0] == 'P' && cs[1] == 't' && cs[2] == 'r' && cs[3] == '<' && cs[n - 1] == '>' {
            proof {
                reveal_strlit("Ptr<");
                assert(name@.take(4) =~= "Ptr<"@);
            }
            let inner = string_from_range(&cs, 4, n - 1);
            return match self.resolve_type(inner.as_str(), line, column) {
                Ok(t) => Ok(Type::Pointer(Box::new(t))),
                Err(err) => Err(err),
            };
        }
        proof {
            reveal_strlit("Ptr<");
            if is_pointer_annotation(name@) {
                assert(name@.take(4)[0] == 'P');
                assert(name@.take(4)[1] == 't');
                assert(name@.take(4)[2] == 'r');
                assert(name@.take(4)[3] == '<');
            }
        }
        match Type::from_annotation_name(name) {
            Some(t) => Ok(t),
            None => {
                let mut message = "unknown type `".to_owned();
                push_str(&mut message, name);
                push_str(&mut message, "`");
                Err(TypeError { message, line, column })
            },
        }
    }

    /// Binds `name: ty` in the innermost scope.
    pub fn declare_var(&mut self, name: &str, ty: Type)
        requires
            old(self).scopes().len() > 0,
        ensures
            final(self).state().classes == old(self).state().classes,
            final(self).state().functions == old(self).state().functions,
            final(self).scopes() == old(self).scopes().update(
                old(self).scopes().len() - 1,
                old(self).scopes().last().insert(name@, ty@),
            ),
            final(self).class_names() == old(self).class_names(),
            final(self).function_names() == old(self).function_names(),
            final(self).state() == declared(old(self).state(), name@, ty@),
    {
        let ghost t = ty@;
        let ghost before = self.env.scopes();
        self.env.declare(name, ty);
        proof {
            let n = before.len() - 1;
            assert(scope_types(before[n].insert(name@, ty)) =~= scope_types(before[n]).insert(name@, t));
            assert(self.scopes() =~= old(self).scopes().update(n, old(self).scopes().last().insert(name@, t)));
        }
    }

    /// The type `name` has in the innermost scope that binds it.
    pub fn lookup_var(&self, name: &str) -> (r: Option<&Type>)
        ensures
            r matches Some(t) ==> resolve(self.scopes(), name@) == Some(t@),
            r is None <==> resolve(self.scopes(), name@) is None,
    {
        let r = self.env.lookup(name);
        proof { lemma_resolve_types(self.env.scopes(), name@); }
        r
    }

    /// Opens a new empty innermost scope.
    pub fn push_scope(&mut self)
        ensures
            final(self).state().classes == old(self).state().classes,
            final(self).state().functions == old(self).state().functions,
            final(self).scopes() == old(self).scopes().push(Map::empty()),
            final(self).class_names() == old(self).class_names(),
            final(self).function_names() == old(self).function_names(),
            final(self).state() == pushed(old(self).state()),
    {
        self.env.push_scope();
        assert(scope_types(Map::<Seq<char>, Type>::empty()) =~= Map::<Seq<char>, TypeModel>::empty());
        assert(self.scopes() =~= old(self).scopes().push(Map::empty()));
    }

    /// Discards the innermost scope.
    pub fn pop_scope(&mut self)
        ensures
            final(self).state().classes == old(self).state().classes,
            final(self).state().functions == old(self).state().functions,
            old(self).scopes().len() > 0 ==> final(self).scopes() == old(self).scopes().drop_last(),
            old(self).scopes().len() == 0 ==> final(self).scopes() == old(self).scopes(),
            final(self).class_names() == old(self).class_names(),
            final(self).function_names() == old(self).function_names(),
            old(self).scopes().len() > 0 ==> final(self).state() == popped(old(self).state()),
    {
        self.env.pop_scope();
        assert(old(self).scopes().len() > 0 ==> self.scopes() =~= old(self).scopes().drop_last());
        assert(old(self).scopes().len() == 0 ==> self.scopes() =~= old(self).scopes());
    }

    /// Reconciles the value types of two sibling `if` branches: equal types
    /// stay, different ones are an error, and a branch with no value makes
    /// the whole `if` valueless.
    pub fn combine_tail_types(a: Option<Type>, b: Option<Type>, line: usize, column: usize) -> (r: Result<
        Option<Type>,
        TypeError,
    >)
        ensures
            match (a, b) {
                (Some(x), Some(y)) => if x@ == y@ {
                    r matches Ok(Some(t)) && t@ == x@
                } else {
                    r matches Err(e) && e.message@ == branch_mismatch(x@, y@) && e.line == line && e.column == column
                },
                _ => r matches Ok(None),
            },
    {
        match (a, b) {
            (Some(x), Some(y)) => {
                if x.same_as(&y) {
                    Ok(Some(x))
                } else {
                    let mut message = "branches of `if` return different types: `".to_owned();
                    let xs = x.display_name();
                    push_str(&mut message, xs.as_str());
                    push_str(&mut message, "` vs `");
                    let ys = y.display_name();
                    push_str(&mut message, ys.as_str());
                    push_str(&mut message, "`");
                    Err(TypeError { message, line, column })
                }
            },
            _ => Ok(None),
        }
    }

    /// The type of `left op right`, or an error naming the operator and
    /// both operand types.
    pub fn check_binary_op(&self, op: BinOp, left: &Type, right: &Type, line: usize, column: usize) -> (r: Result<
        Type,
        TypeError,
    >)
        ensures
            match binary_type(op, left@, right@) {
                Some(t) => r matches Ok(u) && u@ == t,
                None => r matches Err(e) && e.message@ == operand_mismatch(op, left@, right@) && e.line == line
                    && e.column == column,
            },
    {
        let is_string = |t: &Type| -> (b: bool)
            ensures
                b == (t@ == TypeModel::String),
            {
                match t {
                    Type::String => true,
                    _ => false,
                }
            };
        let same = left.same_as(right);
        let numeric = match left {
            Type::Integer => true,
            Type::Float => true,
            _ => false,
        };
        let ok: Option<Type> = match op {
            BinOp::Add | BinOp::Sub | BinOp::Mul | BinOp::Div => {
                if op == BinOp::Add && is_string(left) && is_string(right) {
                    Some(Type::String)
                } else if same && numeric {
                    Some(left.duplicate())
                } else {
                    None
                }
            },
            BinOp::Lt | BinOp::Gt | BinOp::LtEq | BinOp::GtEq => {
                if same && numeric { Some(Type::Boolean) } else { None }
            },
            BinOp::Eq | BinOp::NotEq => {
                if same { Some(Type::Boolean) } else { None }
            },
        };
        match ok {
            Some(t) => Ok(t),
            None => {
                let mut message = "cannot apply `".to_owned();
                push_str(&mut message, binop_symbol(op));
                push_str(&mut message, "` to `");
                let ls = left.display_name();
                push_str(&mut message, ls.as_str());
                push_str(&mut message, "` and `");
                let rs = right.display_name();
                push_str(&mut message, rs.as_str());
                push_str(&mut message, "`");
                Err(TypeError { message, line, column })
            },
        }
    }
}

impl Default for TypeChecker {
    fn default() -> (r: TypeChecker)
        ensures
            r.scopes() == seq![Map::<Seq<char>, TypeModel>::empty()],
            r.class_names() == Set::<Seq<char>>::empty(),
            r.function_names() == Set::<Seq<char>>::empty(),
    {
        TypeChecker::new()
    }
}

/// Resolving in the type views of the scopes is resolving, then viewing.
proof fn lemma_resolve_types(s: Seq<Map<Seq<char>, Type>>, name: Seq<char>)
    ensures
        resolve(s.map_values(|m: Map<Seq<char>, Type>| scope_types(m)), name) == match resolve(s, name) {
            Some(t) => Some(t@),
            None => None::<TypeModel>,
        },
    decreases s.len(),
{
    let v = s.map_values(|m: Map<Seq<char>, Type>| scope_types(m));
    if s.len() > 0 {
        assert(v.drop_last() =~= s.drop_last().map_values(|m: Map<Seq<char>, Type>| scope_types(m)));
        lemma_resolve_types(s.drop_last(), name);
    }
}

/// A function or method signature by its views.
pub struct SigModel {
    pub params: Seq<TypeModel>,
    pub ret: Option<TypeModel>,
}

/// A class by its views: field types and method signatures.
pub struct ClassModel {
    pub fields: Map<Seq<char>, TypeModel>,
    pub methods: Map<Seq<char>, SigModel>,
}

/// The abstract state of the checker: the variable types in scope, the
/// top-level function signatures and the classes.
pub struct TcState {
    pub scopes: Seq<Map<Seq<char>, TypeModel>>,
    pub functions: Map<Seq<char>, SigModel>,
    pub classes: Map<Seq<char>, ClassModel>,
}

/// A type error by its message and position.
pub type Fault = (Seq<char>, usize, usize);

/// The abstract value of a signature.
pub open spec fn sig_model(s: FunctionSig) -> SigModel {
    SigModel {
        params: s.param_types@.map_values(|t: Type| t@),
        ret: match s.return_type {
            Some(t) => Some(t@),
            None => None,
        },
    }
}

/// The abstract value of a class.
pub open spec fn class_model(c: ClassInfo) -> ClassModel {
    ClassModel { fields: scope_types(c.fields@), methods: c.methods@.map_values(|s: FunctionSig| sig_model(s)) }
}

/// A unit result of the checker against what the rules give.
pub open spec fn agrees_unit(r: Result<(), TypeError>, expected: Result<(), Fault>) -> bool {
    match (r, expected) {
        (Ok(_), Ok(_)) => true,
        (Err(e), Err(f)) => e.message@ == f.0 && e.line == f.1 && e.column == f.2,
        _ => false,
    }
}

/// The size of an expression: one per node.
pub open spec fn expr_size(e: Expr) -> nat
    decreases e,
{
    match e {
        Expr::Binary { left, right, .. } => 1 + expr_size(*left) + expr_size(*right),
        Expr::Call { args, .. } => 1 + exprs_size(args@),
        Expr::Unary { expr, .. } => 1 + expr_size(*expr),
        Expr::ArrayLit { elements, .. } => 1 + exprs_size(elements@),
        Expr::Index { array, index, .. } => 1 + expr_size(*array) + expr_size(*index),
        Expr::FieldAccess { object, .. } => 1 + expr_size(*object),
        Expr::MethodCall { object, args, .. } => 1 + expr_size(*object) + exprs_size(args@),
        _ => 1,
    }
}

/// The size of a list of expressions: each one's size, plus one per element.
pub open spec fn exprs_size(s: Seq<Expr>) -> nat
    decreases s,
{
    if s.len() == 0 {
        0
    } else {
        exprs_size(s.drop_last()) + expr_size(s.last()) + 1
    }
}

/// Every element of a list is smaller than the list.
pub proof fn lemma_elem_size(s: Seq<Expr>, i: int)
    requires
        0 <= i < s.len(),
    ensures
        expr_size(s[i]) < exprs_size(s),
        exprs_size(s.drop_last()) < exprs_size(s),
    decreases s.len(),
{
    if i < s.len() - 1 {
        lemma_elem_size(s.drop_last(), i);
    }
}

/// The message for a name with no binding.
pub open spec fn undefined_variable(name: Seq<char>) -> Seq<char> {
    "undefined variable "@ + backq(name)
}

/// `` `x` ``: a name in backquotes.
pub open spec fn backq(x: Seq<char>) -> Seq<char> {
    "`"@ + x + "`"@
}

/// The message for a call with the wrong number of arguments.
pub open spec fn arity_message(what: Seq<char>, expected: nat, found: nat) -> Seq<char> {
    what + " expects "@ + decimal(expected) + " argument(s), found "@ + decimal(found)
}

/// The message for an argument of the wrong type.
pub open spec fn argument_message(what: Seq<char>, expected: TypeModel, found: TypeModel) -> Seq<char> {
    "argument to "@ + backq(what) + " expects "@ + quoted(expected) + ", found "@ + quoted(found)
}

/// `` `t` ``: a type's name in backquotes.
pub open spec fn quoted(t: TypeModel) -> Seq<char> {
    "`"@ + type_display(t) + "`"@
}

/// The type of an expression in a checker state, or the first error, in
/// evaluation order (left to right, operands before the operation).
pub open spec fn expr_type(st: TcState, e: Expr) -> Result<TypeModel, Fault>
    decreases expr_size(e), 4nat,
{
    match e {
        Expr::IntLit { .. } => Ok(TypeModel::Integer),
        Expr::FloatLit { .. } => Ok(TypeModel::Float),
        Expr::StringLit { .. } => Ok(TypeModel::String),
        Expr::BoolLit { .. } => Ok(TypeModel::Boolean),
        Expr::NilLit { .. } => Ok(TypeModel::Nil),
        Expr::Ident { name, line, column } => match resolve(st.scopes, name@) {
            Some(t) => Ok(t),
            None => Err((undefined_variable(name@), line, column)),
        },
        Expr::Binary { op, left, right, line, column } => match expr_type(st, *left) {
            Err(f) => Err(f),
            Ok(l) => match expr_type(st, *right) {
                Err(f) => Err(f),
                Ok(r) => match binary_type(op, l, r) {
                    Some(t) => Ok(t),
                    None => Err((operand_mismatch(op, l, r), line, column)),
                },
            },
        },
        Expr::Unary { expr, line, column, .. } => match expr_type(st, *expr) {
            Err(f) => Err(f),
            Ok(t) => if is_numeric(t) {
                Ok(t)
            } else {
                Err(("cannot negate "@ + quoted(t), line, column))
            },
        },
        Expr::Call { callee, args, line, column } => call_type(st, callee@, args@, line, column),
        Expr::ArrayLit { elements, line, column } => if elements@.len() == 0 {
            Ok(TypeModel::Array(Box::new(TypeModel::Nil)))
        } else {
            proof { lemma_elem_size(elements@, 0); }
            match expr_type(st, elements@[0]) {
                Err(f) => Err(f),
                Ok(first) => match elements_agree(st, elements@, first, line, column) {
                    Err(f) => Err(f),
                    Ok(_) => Ok(TypeModel::Array(Box::new(first))),
                },
            }
        },
        Expr::Index { array, index, line, column } => match expr_type(st, *array) {
            Err(f) => Err(f),
            Ok(a) => match expr_type(st, *index) {
                Err(f) => Err(f),
                Ok(i) => if i != TypeModel::Integer {
                    Err(("array index must be Integer, found "@ + quoted(i), line, column))
                } else {
                    match a {
                        TypeModel::Array(elem) => Ok(*elem),
                        _ => Err(("cannot index into "@ + quoted(a), line, column)),
                    }
                },
            },
        },
        Expr::FieldAccess { object, field, line, column } => field_type(st, *object, field@, line, column),
        Expr::MethodCall { object, method, args, line, column } => method_call_type(
            st,
            *object,
            method@,
            args@,
            line,
            column,
        ),
    }
}

/// Every element after the first has the first one's type.
pub open spec fn elements_agree(st: TcState, s: Seq<Expr>, first: TypeModel, line: usize, column: usize) -> Result<(), Fault>
    decreases exprs_size(s), 0nat,
{
    if s.len() <= 1 {
        Ok(())
    } else {
        proof { lemma_elem_size(s, s.len() - 1); }
        match elements_agree(st, s.drop_last(), first, line, column) {
            Err(f) => Err(f),
            Ok(_) => match expr_type(st, s.last()) {
                Err(f) => Err(f),
                Ok(t) => if t == first {
                    Ok(())
                } else {
                    Err((
                        "array elements must share one type: found "@ + quoted(first) + " and "@ + quoted(t),
                        line,
                        column,
                    ))
                },
            },
        }
    }
}

/// `object.field`: the field's type when `object` is an instance of a class
/// that has it. A class the checker does not know has no fields.
pub open spec fn field_type(st: TcState, object: Expr, field: Seq<char>, line: usize, column: usize) -> Result<TypeModel, Fault>
    decreases expr_size(object) + 1, 3nat,
{
    match expr_type(st, object) {
        Err(f) => Err(f),
        Ok(TypeModel::Instance(c)) => if st.classes.contains_key(c) && st.classes[c].fields.contains_key(field) {
            Ok(st.classes[c].fields[field])
        } else {
            Err(("class "@ + backq(c) + " has no field "@ + backq(field), line, column))
        },
        Ok(t) => Err(("cannot access field "@ + backq(field) + " on "@ + quoted(t), line, column)),
    }
}

/// Each argument, left to right, has its parameter's type.
pub open spec fn args_match(st: TcState, what: Seq<char>, params: Seq<TypeModel>, args: Seq<Expr>) -> Result<(), Fault>
    decreases exprs_size(args), 0nat,
{
    if args.len() == 0 {
        Ok(())
    } else {
        proof { lemma_elem_size(args, args.len() - 1); }
        match args_match(st, what, params.drop_last(), args.drop_last()) {
            Err(f) => Err(f),
            Ok(_) => match expr_type(st, args.last()) {
                Err(f) => Err(f),
                Ok(t) => if t == params.last() {
                    Ok(())
                } else {
                    Err((argument_message(what, params.last(), t), expr_pos(args.last()).0, expr_pos(args.last()).1))
                },
            },
        }
    }
}

/// A call against a known signature: the argument count, then each argument.
pub open spec fn call_args(st: TcState, what: Seq<char>, sig: SigModel, args: Seq<Expr>, line: usize, column: usize) -> Result<(), Fault>
    decreases exprs_size(args), 1nat,
{
    if args.len() != sig.params.len() {
        Err((arity_message(backq(what), sig.params.len(), args.len()), line, column))
    } else {
        args_match(st, what, sig.params, args)
    }
}

/// `Class.new(args)`: only `new` exists; its arguments follow the
/// `initializer`, and with no initializer it takes none.
pub open spec fn construction_type(st: TcState, class: Seq<char>, method: Seq<char>, args: Seq<Expr>, line: usize, column: usize) -> Result<TypeModel, Fault>
    decreases exprs_size(args), 2nat,
{
    if method != "new"@ {
        Err(("class "@ + backq(class) + " has no static method "@ + backq(method), line, column))
    } else if st.classes[class].methods.contains_key("initializer"@) {
        match call_args(st, class + ".new"@, st.classes[class].methods["initializer"@], args, line, column) {
            Err(f) => Err(f),
            Ok(_) => Ok(TypeModel::Instance(class)),
        }
    } else if args.len() != 0 {
        Err(("class "@ + backq(class) + " has no initializer, so `.new` takes no arguments"@, line, column))
    } else {
        Ok(TypeModel::Instance(class))
    }
}

/// `object.method(args)`: a construction when `object` is a class name that
/// is no variable; otherwise a call of the instance's method, giving its
/// declared return type or `Nil`.
pub open spec fn method_call_type(st: TcState, object: Expr, method: Seq<char>, args: Seq<Expr>, line: usize, column: usize) -> Result<TypeModel, Fault>
    decreases expr_size(object) + exprs_size(args) + 1, 3nat,
{
    if object is Ident && resolve(st.scopes, object->Ident_name@) is None && st.classes.contains_key(object->Ident_name@) {
        construction_type(st, object->Ident_name@, method, args, line, column)
    } else {
        match expr_type(st, object) {
            Err(f) => Err(f),
            Ok(TypeModel::Instance(c)) => if st.classes.contains_key(c) && st.classes[c].methods.contains_key(method) {
                let sig = st.classes[c].methods[method];
                match call_args(st, c + "#"@ + method, sig, args, line, column) {
                    Err(f) => Err(f),
                    Ok(_) => Ok(match sig.ret {
                        Some(t) => t,
                        None => TypeModel::Nil,
                    }),
                }
            } else {
                Err(("class "@ + backq(c) + " has no method "@ + backq(method), line, column))
            },
            Ok(t) => primitive_method_type(st, t, method, args, line, column),
        }
    }
}

/// `` `T#method` ``: a primitive method named on its receiver type.
pub open spec fn method_label(t: TypeModel, method: Seq<char>) -> Seq<char> {
    "`"@ + type_display(t) + "#"@ + method + "`"@
}

/// The message for a method that the receiver's kind does not have, with
/// the names it does have.
pub open spec fn no_method_message(t: TypeModel, method: Seq<char>, available: Seq<Seq<char>>) -> Seq<char> {
    quoted(t) + " has no method "@ + backq(method) + " (available: "@ + joined(available, ", "@) + ")"@
}

/// The message for a value of the wrong type given to `push`, `set` or
/// `set_deref` on a `container<elem>` receiver.
pub open spec fn element_mismatch(container: Seq<char>, elem: TypeModel, method: Seq<char>, value: TypeModel) -> Seq<char> {
    "`"@ + container + "<"@ + type_display(elem) + ">#"@ + method + "` expects "@ + quoted(elem) + ", found "@ + quoted(value)
}

/// The message for a non-`Integer` index given to an array method.
pub open spec fn method_index_message(method: Seq<char>, t: TypeModel) -> Seq<char> {
    "`Array#"@ + method + "` index must be `Integer`, found "@ + quoted(t)
}

/// `value.method(args)` on a value of primitive type `t`: the method must be
/// one the registry lists for `t`'s kind, with its exact argument count;
/// the arguments are checked left to right and give the method's type.
/// `Nil` (no kind) has no methods at all.
pub open spec fn primitive_method_type(st: TcState, t: TypeModel, method: Seq<char>, args: Seq<Expr>, line: usize, column: usize) -> Result<TypeModel, Fault>
    decreases exprs_size(args), 2nat,
{
    match receiver_of_type(t) {
        None => Err(("cannot call method "@ + backq(method) + " on "@ + quoted(t), line, column)),
        Some(kind) => match method_index(kind, method) {
            None => Err((no_method_message(t, method, names_on(kind)), line, column)),
            Some(i) => if args.len() != method_table()[i].2 {
                Err((arity_message(method_label(t, method), method_table()[i].2, args.len()), line, column))
            } else {
                match t {
                    TypeModel::Array(elem) => if method == "size"@ {
                        Ok(TypeModel::Integer)
                    } else if method == "pop"@ {
                        Ok(*elem)
                    } else if method == "is_empty"@ {
                        Ok(TypeModel::Boolean)
                    } else if method == "push"@ {
                        proof { lemma_method_arities(); lemma_elem_size(args, 0); }
                        match expr_type(st, args[0]) {
                            Err(f) => Err(f),
                            Ok(v) => if assignable(*elem, v) {
                                Ok(TypeModel::Nil)
                            } else {
                                Err((element_mismatch("Array"@, *elem, method, v), line, column))
                            },
                        }
                    } else if method == "get"@ {
                        proof { lemma_method_arities(); lemma_elem_size(args, 0); }
                        match expr_type(st, args[0]) {
                            Err(f) => Err(f),
                            Ok(ix) => if ix != TypeModel::Integer {
                                Err((method_index_message(method, ix), line, column))
                            } else {
                                Ok(*elem)
                            },
                        }
                    } else {
                        proof { lemma_method_arities(); lemma_elem_size(args, 0); lemma_elem_size(args, 1); }
                        match expr_type(st, args[0]) {
                            Err(f) => Err(f),
                            Ok(ix) => match expr_type(st, args[1]) {
                                Err(f) => Err(f),
                                Ok(v) => if ix != TypeModel::Integer {
                                    Err((method_index_message(method, ix), line, column))
                                } else if assignable(*elem, v) {
                                    Ok(TypeModel::Nil)
                                } else {
                                    Err((element_mismatch("Array"@, *elem, method, v), line, column))
                                },
                            },
                        }
                    },
                    TypeModel::String => if method == "size"@ || method == "to_i"@ {
                        Ok(TypeModel::Integer)
                    } else if method == "is_empty"@ {
                        Ok(TypeModel::Boolean)
                    } else if method == "to_f"@ {
                        Ok(TypeModel::Float)
                    } else {
                        Ok(TypeModel::String)
                    },
                    TypeModel::Integer => if method == "to_s"@ {
                        Ok(TypeModel::String)
                    } else if method == "to_f"@ {
                        Ok(TypeModel::Float)
                    } else {
                        Ok(TypeModel::Integer)
                    },
                    TypeModel::Float => if method == "to_s"@ {
                        Ok(TypeModel::String)
                    } else if method == "to_i"@ {
                        Ok(TypeModel::Integer)
                    } else {
                        Ok(TypeModel::Float)
                    },
                    TypeModel::Pointer(elem) => if method == "deref"@ {
                        Ok(*elem)
                    } else if method == "free"@ {
                        Ok(TypeModel::Nil)
                    } else {
                        proof { lemma_method_arities(); lemma_elem_size(args, 0); }
                        match expr_type(st, args[0]) {
                            Err(f) => Err(f),
                            Ok(v) => if assignable(*elem, v) {
                                Ok(TypeModel::Nil)
                            } else {
                                Err((element_mismatch("Ptr"@, *elem, method, v), line, column))
                            },
                        }
                    },
                    _ => Ok(TypeModel::String),
                }
            },
        },
    }
}

/// Each argument of `print`, left to right, type-checks.
pub open spec fn print_args(st: TcState, args: Seq<Expr>) -> Result<(), Fault>
    decreases exprs_size(args), 0nat,
{
    if args.len() == 0 {
        Ok(())
    } else {
        proof { lemma_elem_size(args, args.len() - 1); }
        match print_args(st, args.drop_last()) {
            Err(f) => Err(f),
            Ok(_) => match expr_type(st, args.last()) {
                Err(f) => Err(f),
                Ok(_) => Ok(()),
            },
        }
    }
}

/// The message for a value of the wrong type put into an array.
pub open spec fn onto_message(callee: Seq<char>, elem: TypeModel, value: TypeModel) -> Seq<char> {
    backq(callee) + " onto `Array<"@ + type_display(elem) + ">` expects "@ + quoted(elem) + ", found "@ + quoted(value)
}

/// The message for a non-Integer index.
pub open spec fn index_message(callee: Seq<char>, t: TypeModel) -> Seq<char> {
    backq(callee) + " index must be Integer, found "@ + quoted(t)
}

/// The message for an argument that should be an array.
pub open spec fn expects_array(callee: Seq<char>, t: TypeModel) -> Seq<char> {
    backq(callee) + " expects an array, found "@ + quoted(t)
}

/// The message for an argument that should be a pointer.
pub open spec fn expects_pointer(callee: Seq<char>, t: TypeModel) -> Seq<char> {
    backq(callee) + " expects a pointer, found "@ + quoted(t)
}

/// The message for a value of the wrong type stored through a pointer.
pub open spec fn into_message(elem: TypeModel, value: TypeModel) -> Seq<char> {
    "`set_deref` into `Ptr<"@ + type_display(elem) + ">` expects "@ + quoted(elem) + ", found "@ + quoted(value)
}

/// A builtin's result type, `None` when `callee` is no builtin. The arity
/// comes first; then the arguments left to right, then the rule: array
/// builtins want an array (and an `Integer` index), pointer builtins a
/// pointer, and `collect` gives the number of freed slots.
pub open spec fn builtin_type(st: TcState, callee: Seq<char>, args: Seq<Expr>, line: usize, column: usize) -> Result<Option<TypeModel>, Fault>
    decreases exprs_size(args), 2nat,
{
    match builtin_arity(callee) {
        None => Ok(None),
        Some(n) => if args.len() != n {
            Err((arity_message(backq(callee), n, args.len()), line, column))
        } else if callee == "collect"@ {
            Ok(Some(TypeModel::Integer))
        } else if callee == "len"@ || callee == "pop"@ {
            proof { lemma_builtin_arities(); }
            proof { lemma_elem_size(args, 0); }
            match expr_type(st, args[0]) {
                Err(f) => Err(f),
                Ok(TypeModel::Array(elem)) => Ok(Some(if callee == "len"@ { TypeModel::Integer } else { *elem })),
                Ok(t) => Err((expects_array(callee, t), line, column)),
            }
        } else if callee == "alloc"@ {
            proof { lemma_builtin_arities(); }
            proof { lemma_elem_size(args, 0); }
            match expr_type(st, args[0]) {
                Err(f) => Err(f),
                Ok(v) => Ok(Some(TypeModel::Pointer(Box::new(v)))),
            }
        } else if callee == "deref"@ || callee == "free"@ {
            proof { lemma_builtin_arities(); }
            proof { lemma_elem_size(args, 0); }
            match expr_type(st, args[0]) {
                Err(f) => Err(f),
                Ok(TypeModel::Pointer(elem)) => Ok(Some(if callee == "deref"@ { *elem } else { TypeModel::Nil })),
                Ok(t) => Err((expects_pointer(callee, t), line, column)),
            }
        } else if callee == "set_deref"@ {
            proof { lemma_builtin_arities(); }
            proof { lemma_elem_size(args, 0); lemma_elem_size(args, 1); }
            match expr_type(st, args[0]) {
                Err(f) => Err(f),
                Ok(p) => match expr_type(st, args[1]) {
                    Err(f) => Err(f),
                    Ok(v) => match p {
                        TypeModel::Pointer(elem) => if *elem == v {
                            Ok(Some(TypeModel::Nil))
                        } else {
                            Err((into_message(*elem, v), line, column))
                        },
                        _ => Err((expects_pointer(callee, p), line, column)),
                    },
                },
            }
        } else if callee == "push"@ {
            proof { lemma_builtin_arities(); }
            proof { lemma_elem_size(args, 0); lemma_elem_size(args, 1); }
            match expr_type(st, args[0]) {
                Err(f) => Err(f),
                Ok(a) => match expr_type(st, args[1]) {
                    Err(f) => Err(f),
                    Ok(v) => match a {
                        TypeModel::Array(elem) => if *elem == v {
                            Ok(Some(TypeModel::Nil))
                        } else {
                            Err((
                                onto_message("push"@, *elem, v),
                                line,
                                column,
                            ))
                        },
                        _ => Err((expects_array(callee, a), line, column)),
                    },
                },
            }
        } else if callee == "get"@ {
            proof { lemma_builtin_arities(); }
            proof { lemma_elem_size(args, 0); lemma_elem_size(args, 1); }
            match expr_type(st, args[0]) {
                Err(f) => Err(f),
                Ok(a) => match expr_type(st, args[1]) {
                    Err(f) => Err(f),
                    Ok(i) => if i != TypeModel::Integer {
                        Err((index_message("get"@, i), line, column))
                    } else {
                        match a {
                            TypeModel::Array(elem) => Ok(Some(*elem)),
                            _ => Err((expects_array(callee, a), line, column)),
                        }
                    },
                },
            }
        } else {
            proof { lemma_builtin_arities(); }
            proof { lemma_elem_size(args, 0); lemma_elem_size(args, 1); lemma_elem_size(args, 2); }
            match expr_type(st, args[0]) {
                Err(f) => Err(f),
                Ok(a) => match expr_type(st, args[1]) {
                    Err(f) => Err(f),
                    Ok(i) => match expr_type(st, args[2]) {
                        Err(f) => Err(f),
                        Ok(v) => if i != TypeModel::Integer {
                            Err((index_message("set"@, i), line, column))
                        } else {
                            match a {
                                TypeModel::Array(elem) => if *elem == v {
                                    Ok(Some(TypeModel::Nil))
                                } else {
                                    Err((
                                        onto_message("set"@, *elem, v),
                                        line,
                                        column,
                                    ))
                                },
                                _ => Err((expects_array(callee, a), line, column)),
                            }
                        },
                    },
                },
            }
        },
    }
}

/// `callee(args)`: `print` takes anything and gives `Nil`; an array builtin
/// follows its rule; otherwise a known top-level function, checked for
/// argument count and types, giving its declared return type or `Nil`.
pub open spec fn call_type(st: TcState, callee: Seq<char>, args: Seq<Expr>, line: usize, column: usize) -> Result<TypeModel, Fault>
    decreases exprs_size(args), 3nat,
{
    if callee == "print"@ {
        match print_args(st, args) {
            Err(f) => Err(f),
            Ok(_) => Ok(TypeModel::Nil),
        }
    } else {
        match builtin_type(st, callee, args, line, column) {
            Err(f) => Err(f),
            Ok(Some(t)) => Ok(t),
            Ok(None) => if !st.functions.contains_key(callee) {
                Err(("undefined function "@ + backq(callee), line, column))
            } else {
                let sig = st.functions[callee];
                if args.len() != sig.params.len() {
                    Err((arity_message("function "@ + backq(callee), sig.params.len(), args.len()), line, column))
                } else {
                    match args_match(st, callee, sig.params, args) {
                        Err(f) => Err(f),
                        Ok(_) => Ok(match sig.ret {
                            Some(t) => t,
                            None => TypeModel::Nil,
                        }),
                    }
                }
            },
        }
    }
}

/// A checker result against the type the rules give.
pub open spec fn agrees_type(r: Result<Type, TypeError>, expected: Result<TypeModel, Fault>) -> bool {
    match (r, expected) {
        (Ok(t), Ok(m)) => t@ == m,
        (Err(e), Err(f)) => e.message@ == f.0 && e.line == f.1 && e.column == f.2,
        _ => false,
    }
}

/// An optional-type checker result against what the rules give.
pub open spec fn agrees_opt(r: Result<Option<Type>, TypeError>, expected: Result<Option<TypeModel>, Fault>) -> bool {
    match (r, expected) {
        (Ok(None), Ok(None)) => true,
        (Ok(Some(t)), Ok(Some(m))) => t@ == m,
        (Err(e), Err(f)) => e.message@ == f.0 && e.line == f.1 && e.column == f.2,
        _ => false,
    }
}

/// The views of a list of types.
pub open spec fn types_model(ts: Seq<Type>) -> Seq<TypeModel> {
    ts.map_values(|t: Type| t@)
}

/// Once a prefix of the arguments fails, the whole list fails the same way.
pub proof fn lemma_args_match_prefix(st: TcState, what: Seq<char>, params: Seq<TypeModel>, args: Seq<Expr>, k: int)
    requires
        0 <= k <= args.len(),
        params.len() == args.len(),
        args_match(st, what, params.take(k), args.take(k)) is Err,
    ensures
        args_match(st, what, params, args) == args_match(st, what, params.take(k), args.take(k)),
    decreases args.len() - k,
{
    if k < args.len() {
        assert(args.take(k + 1).drop_last() =~= args.take(k));
        assert(params.take(k + 1).drop_last() =~= params.take(k));
        lemma_args_match_prefix(st, what, params, args, k + 1);
    } else {
        assert(args.take(k) =~= args);
        assert(params.take(k) =~= params);
    }
}

/// Once a prefix of the elements disagrees, the whole list does the same way.
pub proof fn lemma_elements_agree_prefix(st: TcState, s: Seq<Expr>, first: TypeModel, line: usize, column: usize, k: int)
    requires
        0 <= k <= s.len(),
        elements_agree(st, s.take(k), first, line, column) is Err,
    ensures
        elements_agree(st, s, first, line, column) == elements_agree(st, s.take(k), first, line, column),
    decreases s.len() - k,
{
    if k < s.len() {
        assert(s.take(k + 1).drop_last() =~= s.take(k));
        lemma_elements_agree_prefix(st, s, first, line, column, k + 1);
    } else {
        assert(s.take(k) =~= s);
    }
}

/// Once a prefix of `print`'s arguments fails, the whole list fails the same way.
pub proof fn lemma_print_args_prefix(st: TcState, args: Seq<Expr>, k: int)
    requires
        0 <= k <= args.len(),
        print_args(st, args.take(k)) is Err,
    ensures
        print_args(st, args) == print_args(st, args.take(k)),
    decreases args.len() - k,
{
    if k < args.len() {
        assert(args.take(k + 1).drop_last() =~= args.take(k));
        lemma_print_args_prefix(st, args, k + 1);
    } else {
        assert(args.take(k) =~= args);
    }
}

/// `` `t` ``.
fn quoted_type(t: &Type) -> (r: String)
    ensures
        r@ == quoted(t@),
{
    let mut out = "`".to_owned();
    let name = t.display_name();
    push_str(&mut out, name.as_str());
    push_str(&mut out, "`");
    out
}

/// `what expects N argument(s), found K`.
fn arity_text(what: &str, expected: usize, found: usize) -> (r: String)
    ensures
        r@ == arity_message(what@, expected as nat, found as nat),
{
    let mut out = what.to_owned();
    push_str(&mut out, " expects ");
    let e = usize_to_decimal(expected);
    push_str(&mut out, e.as_str());
    push_str(&mut out, " argument(s), found ");
    let f = usize_to_decimal(found);
    push_str(&mut out, f.as_str());
    out
}

/// `` `name` ``.
fn backquoted(name: &str) -> (r: String)
    ensures
        r@ == backq(name@),
{
    let mut out = "`".to_owned();
    push_str(&mut out, name);
    push_str(&mut out, "`");
    out
}

/// A type error at a position.
fn fault(message: String, line: usize, column: usize) -> (r: TypeError)
    ensures
        r.message@ == message@,
        r.line == line,
        r.column == column,
{
    TypeError { message, line, column }
}

impl TypeChecker {
    /// The checker's abstract state.
    pub closed spec fn state(&self) -> TcState {
        TcState {
            scopes: self.scopes(),
            functions: self.functions@.map_values(|s: FunctionSig| sig_model(s)),
            classes: self.classes@.map_values(|c: ClassInfo| class_model(c)),
        }
    }

    /// The type of `e`, by the rules of `expr_type`.
    fn check_expr(&self, e: &Expr) -> (r: Result<Type, TypeError>)
        ensures
            agrees_type(r, expr_type(self.state(), *e)),
        decreases expr_size(*e), 4nat,
    {
        let ghost st = self.state();
        match e {
            Expr::IntLit { .. } => Ok(Type::Integer),
            Expr::FloatLit { .. } => Ok(Type::Float),
            Expr::StringLit { .. } => Ok(Type::String),
            Expr::BoolLit { .. } => Ok(Type::Boolean),
            Expr::NilLit { .. } => Ok(Type::Nil),
            Expr::Ident { name, line, column } => match self.lookup_var(name.as_str()) {
                Some(t) => Ok(t.duplicate()),
                None => {
                    let mut message = "undefined variable ".to_owned();
                    let q = backquoted(name.as_str());
                    push_str(&mut message, q.as_str());
                    Err(fault(message, *line, *column))
                },
            },
            Expr::Binary { op, left, right, line, column } => {
                let l = match self.check_expr(left) {
                    Ok(t) => t,
                    Err(err) => {
                        return Err(err);
                    },
                };
                let r = match self.check_expr(right) {
                    Ok(t) => t,
                    Err(err) => {
                        return Err(err);
                    },
                };
                self.check_binary_op(*op, &l, &r, *line, *column)
            },
            Expr::Unary { expr, line, column, .. } => {
                let t = match self.check_expr(expr) {
                    Ok(t) => t,
                    Err(err) => {
                        return Err(err);
                    },
                };
                match t {
                    Type::Integer => Ok(t),
                    Type::Float => Ok(t),
                    _ => {
                        let mut message = "cannot negate ".to_owned();
                        let q = quoted_type(&t);
                        push_str(&mut message, q.as_str());
                        Err(fault(message, *line, *column))
                    },
                }
            },
            Expr::Call { callee, args, line, column } => self.check_call(callee.as_str(), args, *line, *column),
            Expr::ArrayLit { .. } => self.check_array_literal(e),
            Expr::Index { .. } => self.check_index(e),
            Expr::FieldAccess { object, field, line, column } => self.check_field_access(
                object,
                field.as_str(),
                *line,
                *column,
            ),
            Expr::MethodCall { object, method, args, line, column } => self.check_method_call(
                object,
                method.as_str(),
                args,
                *line,
                *column,
            ),
        }
    }

    /// An array literal, by the rules of `expr_type`.
    fn check_array_literal(&self, e: &Expr) -> (r: Result<Type, TypeError>)
        requires
            e is ArrayLit,
        ensures
            agrees_type(r, expr_type(self.state(), *e)),
        decreases expr_size(*e), 3nat,
    {
        let ghost st = self.state();
        proof { reveal_with_fuel(type_model, 2); }
        let (elements, line, column) = match e {
            Expr::ArrayLit { elements, line, column } => (elements, line, column),
            _ => {
                return Ok(Type::Nil);
            },
        };
        if elements.len() == 0 {
            return Ok(Type::Array(Box::new(Type::Nil)));
        }
        proof {
            lemma_elem_size(elements@, 0);
        }
        let first = match self.check_expr(&elements[0]) {
            Ok(t) => t,
            Err(err) => {
                return Err(err);
            },
        };
        let mut i: usize = 1;
        assert(elements@.take(1).len() <= 1);
        let ghost whole = expr_type(st, *e);
        assert(whole == match elements_agree(st, elements@, first@, *line, *column) {
            Err(f) => Err(f),
            Ok(_) => Ok(TypeModel::Array(Box::new(first@))),
        });
        while i < elements.len()
            invariant
                1 <= i <= elements@.len(),
                st == self.state(),
                whole == expr_type(st, *e),
                whole == match elements_agree(st, elements@, first@, *line, *column) {
                    Err(f) => Err(f),
                    Ok(_) => Ok(TypeModel::Array(Box::new(first@))),
                },
                exprs_size(elements@) < expr_size(*e),
                elements_agree(st, elements@.take(i as int), first@, *line, *column) == Ok::<(), Fault>(()),
            decreases elements@.len() - i,
        {
            proof {
                lemma_elem_size(elements@, i as int);
                let t1 = elements@.take(i + 1);
                assert(t1.drop_last() =~= elements@.take(i as int));
                assert(t1.last() == elements@[i as int]);
            }
            let t = match self.check_expr(&elements[i]) {
                Ok(t) => t,
                Err(err) => {
                    proof { lemma_elements_agree_prefix(st, elements@, first@, *line, *column, i + 1); }
                    return Err(err);
                },
            };
            if !t.same_as(&first) {
                let mut message = "array elements must share one type: found ".to_owned();
                let a = quoted_type(&first);
                push_str(&mut message, a.as_str());
                push_str(&mut message, " and ");
                let b = quoted_type(&t);
                push_str(&mut message, b.as_str());
                assert(message@ =~= "array elements must share one type: found "@ + quoted(first@) + " and "@ + quoted(t@));
                proof { lemma_elements_agree_prefix(st, elements@, first@, *line, *column, i + 1); }
                return Err(fault(message, *line, *column));
            }
            i = i + 1;
        }
        assert(elements@.take(i as int) =~= elements@);
        Ok(Type::Array(Box::new(first)))
    }

    /// An index expression, by the rules of `expr_type`.
    fn check_index(&self, e: &Expr) -> (r: Result<Type, TypeError>)
        requires
            e is Index,
        ensures
            agrees_type(r, expr_type(self.state(), *e)),
        decreases expr_size(*e), 3nat,
    {
        let (array, index, line, column) = match e {
            Expr::Index { array, index, line, column } => (array, index, line, column),
            _ => {
                return Ok(Type::Nil);
            },
        };
                let a = match self.check_expr(array) {
            Ok(t) => t,
            Err(err) => {
                return Err(err);
            },
        };
        let i = match self.check_expr(index) {
            Ok(t) => t,
            Err(err) => {
                return Err(err);
            },
        };
        match i {
            Type::Integer => {},
            _ => {
                let mut message = "array index must be Integer, found ".to_owned();
                let q = quoted_type(&i);
                push_str(&mut message, q.as_str());
                return Err(fault(message, *line, *column));
            },
        }
        match a {
            Type::Array(elem) => Ok(*elem),
            _ => {
                let mut message = "cannot index into ".to_owned();
                let q = quoted_type(&a);
                push_str(&mut message, q.as_str());
                Err(fault(message, *line, *column))
            },
        }
    }

    /// `object.field`, by the rules of `field_type`.
    fn check_field_access(&self, object: &Expr, field: &str, line: usize, column: usize) -> (r: Result<Type, TypeError>)
        ensures
            agrees_type(r, field_type(self.state(), *object, field@, line, column)),
        decreases expr_size(*object) + 1, 3nat,
    {
        let t = match self.check_expr(object) {
            Ok(t) => t,
            Err(err) => {
                return Err(err);
            },
        };
        let ghost st = self.state();
        match &t {
            Type::Instance(c) => {
                let found = match self.classes.get(c.as_str()) {
                    Some(info) => {
                        assert(st.classes[c@] == class_model(*info));
                        info.fields.get(field)
                    },
                    None => None,
                };
                match found {
                    Some(ft) => Ok(ft.duplicate()),
                    None => {
                        let mut message = "class ".to_owned();
                        let q = backquoted(c.as_str());
                        push_str(&mut message, q.as_str());
                        push_str(&mut message, " has no field ");
                        let f = backquoted(field);
                        push_str(&mut message, f.as_str());
                        assert(message@ =~= "class "@ + backq(c@) + " has no field "@ + backq(field@));
                        Err(fault(message, line, column))
                    },
                }
            },
            _ => {
                let mut message = "cannot access field ".to_owned();
                let f = backquoted(field);
                push_str(&mut message, f.as_str());
                push_str(&mut message, " on ");
                let q = quoted_type(&t);
                push_str(&mut message, q.as_str());
                assert(message@ =~= "cannot access field "@ + backq(field@) + " on "@ + quoted(t@));
                Err(fault(message, line, column))
            },
        }
    }

    /// Each argument against its parameter type, by the rules of `args_match`.
    fn check_args_match(&self, what: &str, params: &Vec<Type>, args: &Vec<Expr>) -> (r: Result<(), TypeError>)
        requires
            params@.len() == args@.len(),
        ensures
            agrees_unit(r, args_match(self.state(), what@, types_model(params@), args@)),
        decreases exprs_size(args@), 0nat,
    {
        let ghost st = self.state();
        let ghost pm = types_model(params@);
        let mut i: usize = 0;
        assert(args@.take(0).len() == 0);
        while i < args.len()
            invariant
                i <= args@.len(),
                params@.len() == args@.len(),
                st == self.state(),
                pm == types_model(params@),
                args_match(st, what@, pm.take(i as int), args@.take(i as int)) == Ok::<(), Fault>(()),
            decreases args@.len() - i,
        {
            proof {
                lemma_elem_size(args@, i as int);
                let a1 = args@.take(i + 1);
                let p1 = pm.take(i + 1);
                assert(a1.drop_last() =~= args@.take(i as int));
                assert(p1.drop_last() =~= pm.take(i as int));
                assert(a1.last() == args@[i as int]);
                assert(p1.last() == params@[i as int]@);
            }
            let t = match self.check_expr(&args[i]) {
                Ok(t) => t,
                Err(err) => {
                    proof { lemma_args_match_prefix(st, what@, pm, args@, i + 1); }
                    return Err(err);
                },
            };
            if !t.same_as(&params[i]) {
                let mut message = "argument to ".to_owned();
                let w = backquoted(what);
                push_str(&mut message, w.as_str());
                push_str(&mut message, " expects ");
                let p = quoted_type(&params[i]);
                push_str(&mut message, p.as_str());
                push_str(&mut message, ", found ");
                let q = quoted_type(&t);
                push_str(&mut message, q.as_str());
                assert(message@ =~= argument_message(what@, params@[i as int]@, t@));
                proof { lemma_args_match_prefix(st, what@, pm, args@, i + 1); }
                return Err(fault(message, args[i].line(), args[i].column()));
            }
            i = i + 1;
        }
        assert(args@.take(i as int) =~= args@);
        assert(pm.take(i as int) =~= pm);
        Ok(())
    }

    /// A call against a known signature, by the rules of `call_args`.
    fn check_call_args(&self, what: &str, sig: &FunctionSig, args: &Vec<Expr>, line: usize, column: usize) -> (r: Result<
        (),
        TypeError,
    >)
        ensures
            agrees_unit(r, call_args(self.state(), what@, sig_model(*sig), args@, line, column)),
        decreases exprs_size(args@), 1nat,
    {
        if args.len() != sig.param_types.len() {
            let w = backquoted(what);
            let message = arity_text(w.as_str(), sig.param_types.len(), args.len());
            return Err(fault(message, line, column));
        }
        self.check_args_match(what, &sig.param_types, args)
    }

    /// `Class.new(args)`, by the rules of `construction_type`.
    fn check_construction(&self, class_name: &str, method: &str, args: &Vec<Expr>, line: usize, column: usize) -> (r: Result<
        Type,
        TypeError,
    >)
        requires
            self.state().classes.contains_key(class_name@),
        ensures
            agrees_type(r, construction_type(self.state(), class_name@, method@, args@, line, column)),
        decreases exprs_size(args@), 2nat,
    {
        if !str_eq(method, "new") {
            let mut message = "class ".to_owned();
            let c = backquoted(class_name);
            push_str(&mut message, c.as_str());
            push_str(&mut message, " has no static method ");
            let m = backquoted(method);
            push_str(&mut message, m.as_str());
            assert(message@ =~= "class "@ + backq(class_name@) + " has no static method "@ + backq(method@));
            return Err(fault(message, line, column));
        }
        let info = match self.classes.get(class_name) {
            Some(info) => info,
            None => {
                proof { assert(self.state().classes.contains_key(class_name@)); }
                return Ok(Type::Nil);
            },
        };
        assert(self.state().classes[class_name@] == class_model(*info));
        match info.methods.get("initializer") {
            Some(sig) => {
                assert(class_model(*info).methods["initializer"@] == sig_model(*sig));
                let mut what = class_name.to_owned();
                push_str(&mut what, ".new");
                match self.check_call_args(what.as_str(), sig, args, line, column) {
                    Ok(_) => {},
                    Err(err) => {
                        return Err(err);
                    },
                }
            },
            None => {
                if args.len() != 0 {
                    let mut message = "class ".to_owned();
                    let c = backquoted(class_name);
                    push_str(&mut message, c.as_str());
                    push_str(&mut message, " has no initializer, so `.new` takes no arguments");
                    assert(message@ =~= "class "@ + backq(class_name@) + " has no initializer, so `.new` takes no arguments"@);
                    return Err(fault(message, line, column));
                }
            },
        }
        Ok(Type::Instance(class_name.to_owned()))
    }

    /// `object.method(args)`, by the rules of `method_call_type`.
    fn check_method_call(&self, object: &Expr, method: &str, args: &Vec<Expr>, line: usize, column: usize) -> (r: Result<
        Type,
        TypeError,
    >)
        ensures
            agrees_type(r, method_call_type(self.state(), *object, method@, args@, line, column)),
        decreases expr_size(*object) + exprs_size(args@) + 1, 3nat,
    {
        match object {
            Expr::Ident { name, .. } => {
                if self.lookup_var(name.as_str()).is_none() && self.classes.contains_key(name.as_str()) {
                    return self.check_construction(name.as_str(), method, args, line, column);
                }
            },
            _ => {},
        }
        let t = match self.check_expr(object) {
            Ok(t) => t,
            Err(err) => {
                return Err(err);
            },
        };
        let ghost st = self.state();
        match &t {
            Type::Instance(c) => {
                let found = match self.classes.get(c.as_str()) {
                    Some(info) => {
                        assert(st.classes[c@] == class_model(*info));
                        info.methods.get(method)
                    },
                    None => None,
                };
                match found {
                    Some(sig) => {
                        assert(st.classes[c@].methods[method@] == sig_model(*sig));
                        let mut what = c.clone();
                        push_str(&mut what, "#");
                        push_str(&mut what, method);
                        assert(what@ =~= c@ + "#"@ + method@);
                        match self.check_call_args(what.as_str(), sig, args, line, column) {
                            Ok(_) => {},
                            Err(err) => {
                                return Err(err);
                            },
                        }
                        match &sig.return_type {
                            Some(rt) => Ok(rt.duplicate()),
                            None => Ok(Type::Nil),
                        }
                    },
                    None => {
                        let mut message = "class ".to_owned();
                        let q = backquoted(c.as_str());
                        push_str(&mut message, q.as_str());
                        push_str(&mut message, " has no method ");
                        let m = backquoted(method);
                        push_str(&mut message, m.as_str());
                        assert(message@ =~= "class "@ + backq(c@) + " has no method "@ + backq(method@));
                        Err(fault(message, line, column))
                    },
                }
            },
            _ => self.check_primitive_method(&t, method, args, line, column),
        }
    }

    /// `value.method(args)` on a value of primitive type `t`, by the rules of
    /// `primitive_method_type`.
    fn check_primitive_method(&self, t: &Type, method: &str, args: &Vec<Expr>, line: usize, column: usize) -> (r: Result<
        Type,
        TypeError,
    >)
        ensures
            agrees_type(r, primitive_method_type(self.state(), t@, method@, args@, line, column)),
        decreases exprs_size(args@), 2nat,
    {
        let kind = match ReceiverKind::of_type(t) {
            Some(k) => k,
            None => {
                let mut message = "cannot call method ".to_owned();
                let m = backquoted(method);
                push_str(&mut message, m.as_str());
                push_str(&mut message, " on ");
                let q = quoted_type(t);
                push_str(&mut message, q.as_str());
                assert(message@ =~= "cannot call method "@ + backq(method@) + " on "@ + quoted(t@));
                return Err(fault(message, line, column));
            },
        };
        let m = match crate::methods::lookup(kind, method) {
            Some(m) => m,
            None => {
                let mut message = quoted_type(t);
                push_str(&mut message, " has no method ");
                let b = backquoted(method);
                push_str(&mut message, b.as_str());
                push_str(&mut message, " (available: ");
                let names = crate::methods::names_for(kind);
                let list = join_strs(&names, ", ");
                push_str(&mut message, list.as_str());
                push_str(&mut message, ")");
                assert(message@ =~= no_method_message(t@, method@, names_on(kind)));
                return Err(fault(message, line, column));
            },
        };
        if args.len() != m.arity {
            let mut label = "`".to_owned();
            let d = t.display_name();
            push_str(&mut label, d.as_str());
            push_str(&mut label, "#");
            push_str(&mut label, method);
            push_str(&mut label, "`");
            assert(label@ =~= method_label(t@, method@));
            let message = arity_text(label.as_str(), m.arity, args.len());
            return Err(fault(message, line, column));
        }
        proof {
            lemma_method_arities();
        }
        match t {
            Type::Array(elem) => {
                if str_eq(method, "size") {
                    return Ok(Type::Integer);
                }
                if str_eq(method, "pop") {
                    return Ok(elem.duplicate());
                }
                if str_eq(method, "is_empty") {
                    return Ok(Type::Boolean);
                }
                proof {
                    lemma_elem_size(args@, 0);
                }
                let first = match self.check_expr(&args[0]) {
                    Ok(v) => v,
                    Err(err) => {
                        return Err(err);
                    },
                };
                if str_eq(method, "push") {
                    return if elem.accepts(&first) {
                        Ok(Type::Nil)
                    } else {
                        Err(element_error("Array", elem, method, &first, line, column))
                    };
                }
                if str_eq(method, "get") {
                    return match first {
                        Type::Integer => Ok(elem.duplicate()),
                        _ => Err(method_index_error(method, &first, line, column)),
                    };
                }
                proof {
                    lemma_elem_size(args@, 1);
                }
                let second = match self.check_expr(&args[1]) {
                    Ok(v) => v,
                    Err(err) => {
                        return Err(err);
                    },
                };
                match first {
                    Type::Integer => {},
                    _ => {
                        return Err(method_index_error(method, &first, line, column));
                    },
                }
                if elem.accepts(&second) {
                    Ok(Type::Nil)
                } else {
                    Err(element_error("Array", elem, method, &second, line, column))
                }
            },
            Type::String => {
                if str_eq(method, "size") || str_eq(method, "to_i") {
                    Ok(Type::Integer)
                } else if str_eq(method, "is_empty") {
                    Ok(Type::Boolean)
                } else if str_eq(method, "to_f") {
                    Ok(Type::Float)
                } else {
                    Ok(Type::String)
                }
            },
            Type::Integer => {
                if str_eq(method, "to_s") {
                    Ok(Type::String)
                } else if str_eq(method, "to_f") {
                    Ok(Type::Float)
                } else {
                    Ok(Type::Integer)
                }
            },
            Type::Float => {
                if str_eq(method, "to_s") {
                    Ok(Type::String)
                } else if str_eq(method, "to_i") {
                    Ok(Type::Integer)
                } else {
                    Ok(Type::Float)
                }
            },
            Type::Pointer(elem) => {
                if str_eq(method, "deref") {
                    return Ok(elem.duplicate());
                }
                if str_eq(method, "free") {
                    return Ok(Type::Nil);
                }
                proof {
                    lemma_elem_size(args@, 0);
                }
                let v = match self.check_expr(&args[0]) {
                    Ok(v) => v,
                    Err(err) => {
                        return Err(err);
                    },
                };
                if elem.accepts(&v) {
                    Ok(Type::Nil)
                } else {
                    Err(element_error("Ptr", elem, method, &v, line, column))
                }
            },
            _ => Ok(Type::String),
        }
    }
}

/// ``container<E>#method expects `E`, found `V` ``.
fn element_error(container: &str, elem: &Type, method: &str, value: &Type, line: usize, column: usize) -> (r: TypeError)
    ensures
        r.message@ == element_mismatch(container@, elem@, method@, value@),
        r.line == line,
        r.column == column,
{
    let mut message = "`".to_owned();
    push_str(&mut message, container);
    push_str(&mut message, "<");
    let e = elem.display_name();
    push_str(&mut message, e.as_str());
    push_str(&mut message, ">#");
    push_str(&mut message, method);
    push_str(&mut message, "` expects ");
    let q = quoted_type(elem);
    push_str(&mut message, q.as_str());
    push_str(&mut message, ", found ");
    let v = quoted_type(value);
    push_str(&mut message, v.as_str());
    assert(message@ =~= element_mismatch(container@, elem@, method@, value@));
    fault(message, line, column)
}

/// ``Array#method index must be `Integer`, found `T` ``.
fn method_index_error(method: &str, t: &Type, line: usize, column: usize) -> (r: TypeError)
    ensures
        r.message@ == method_index_message(method@, t@),
        r.line == line,
        r.column == column,
{
    let mut message = "`Array#".to_owned();
    push_str(&mut message, method);
    push_str(&mut message, "` index must be `Integer`, found ");
    let q = quoted_type(t);
    push_str(&mut message, q.as_str());
    assert(message@ =~= method_index_message(method@, t@));
    fault(message, line, column)
}

impl TypeChecker {
    /// `callee must be an array` for an argument of type `t`.
    fn expects_array_error(callee: &str, t: &Type, line: usize, column: usize) -> (r: TypeError)
        ensures
            r.message@ == expects_array(callee@, t@),
            r.line == line,
            r.column == column,
    {
        let mut message = backquoted(callee);
        push_str(&mut message, " expects an array, found ");
        let q = quoted_type(t);
        push_str(&mut message, q.as_str());
        assert(message@ =~= expects_array(callee@, t@));
        fault(message, line, column)
    }

    /// ``callee onto `Array<E>` expects `E`, found `V` ``.
    fn onto_error(callee: &str, elem: &Type, value: &Type, line: usize, column: usize) -> (r: TypeError)
        ensures
            r.message@ == onto_message(callee@, elem@, value@),
            r.line == line,
            r.column == column,
    {
        let mut message = backquoted(callee);
        push_str(&mut message, " onto `Array<");
        let e = elem.display_name();
        push_str(&mut message, e.as_str());
        push_str(&mut message, ">` expects ");
        let q = quoted_type(elem);
        push_str(&mut message, q.as_str());
        push_str(&mut message, ", found ");
        let v = quoted_type(value);
        push_str(&mut message, v.as_str());
        assert(message@ =~= onto_message(callee@, elem@, value@));
        fault(message, line, column)
    }

    /// ``callee index must be Integer, found `T` ``.
    fn index_error(callee: &str, t: &Type, line: usize, column: usize) -> (r: TypeError)
        ensures
            r.message@ == index_message(callee@, t@),
            r.line == line,
            r.column == column,
    {
        let mut message = backquoted(callee);
        push_str(&mut message, " index must be Integer, found ");
        let q = quoted_type(t);
        push_str(&mut message, q.as_str());
        assert(message@ =~= index_message(callee@, t@));
        fault(message, line, column)
    }

    /// ``callee expects a pointer, found `T` ``.
    fn expects_pointer_error(callee: &str, t: &Type, line: usize, column: usize) -> (r: TypeError)
        ensures
            r.message@ == expects_pointer(callee@, t@),
            r.line == line,
            r.column == column,
    {
        let mut message = backquoted(callee);
        push_str(&mut message, " expects a pointer, found ");
        let q = quoted_type(t);
        push_str(&mut message, q.as_str());
        assert(message@ =~= expects_pointer(callee@, t@));
        fault(message, line, column)
    }

    /// ``set_deref into `Ptr<E>` expects `E`, found `V` ``.
    fn into_error(elem: &Type, value: &Type, line: usize, column: usize) -> (r: TypeError)
        ensures
            r.message@ == into_message(elem@, value@),
            r.line == line,
            r.column == column,
    {
        let mut message = "`set_deref` into `Ptr<".to_owned();
        let e = elem.display_name();
        push_str(&mut message, e.as_str());
        push_str(&mut message, ">` expects ");
        let q = quoted_type(elem);
        push_str(&mut message, q.as_str());
        push_str(&mut message, ", found ");
        let v = quoted_type(value);
        push_str(&mut message, v.as_str());
        assert(message@ =~= into_message(elem@, value@));
        fault(message, line, column)
    }

    /// A builtin call, by the rules of `builtin_type`; `None` when `callee`
    /// is no builtin.
    fn check_array_builtin(&self, callee: &str, args: &Vec<Expr>, line: usize, column: usize) -> (r: Result<
        Option<Type>,
        TypeError,
    >)
        ensures
            agrees_opt(r, builtin_type(self.state(), callee@, args@, line, column)),
        decreases exprs_size(args@), 2nat,
    {
        let builtin = match builtin_lookup(callee) {
            None => {
                return Ok(None);
            },
            Some(b) => b,
        };
        if args.len() != builtin.arity {
            let w = backquoted(callee);
            let message = arity_text(w.as_str(), builtin.arity, args.len());
            return Err(fault(message, line, column));
        }
        proof {
            lemma_builtin_arities();
        }
        if str_eq(callee, "collect") {
            return Ok(Some(Type::Integer));
        }
        proof {
            lemma_elem_size(args@, 0);
        }
        let a = match self.check_expr(&args[0]) {
            Ok(t) => t,
            Err(err) => {
                return Err(err);
            },
        };
        if str_eq(callee, "len") || str_eq(callee, "pop") {
            return match a {
                Type::Array(elem) => if str_eq(callee, "len") {
                    Ok(Some(Type::Integer))
                } else {
                    Ok(Some(*elem))
                },
                _ => Err(Self::expects_array_error(callee, &a, line, column)),
            };
        }
        if str_eq(callee, "alloc") {
            return Ok(Some(Type::Pointer(Box::new(a))));
        }
        if str_eq(callee, "deref") || str_eq(callee, "free") {
            return match a {
                Type::Pointer(elem) => if str_eq(callee, "deref") {
                    Ok(Some(*elem))
                } else {
                    Ok(Some(Type::Nil))
                },
                _ => Err(Self::expects_pointer_error(callee, &a, line, column)),
            };
        }
        proof {
            lemma_elem_size(args@, 1);
        }
        let b = match self.check_expr(&args[1]) {
            Ok(t) => t,
            Err(err) => {
                return Err(err);
            },
        };
        if str_eq(callee, "set_deref") {
            return match &a {
                Type::Pointer(elem) => if elem.same_as(&b) {
                    Ok(Some(Type::Nil))
                } else {
                    Err(Self::into_error(elem, &b, line, column))
                },
                _ => Err(Self::expects_pointer_error(callee, &a, line, column)),
            };
        }
        if str_eq(callee, "push") {
            return match &a {
                Type::Array(elem) => if elem.same_as(&b) {
                    Ok(Some(Type::Nil))
                } else {
                    Err(Self::onto_error(callee, elem, &b, line, column))
                },
                _ => Err(Self::expects_array_error(callee, &a, line, column)),
            };
        }
        if str_eq(callee, "get") {
            match b {
                Type::Integer => {},
                _ => {
                    return Err(Self::index_error(callee, &b, line, column));
                },
            }
            return match a {
                Type::Array(elem) => Ok(Some(*elem)),
                _ => Err(Self::expects_array_error(callee, &a, line, column)),
            };
        }
        proof {
            lemma_elem_size(args@, 2);
        }
        let v = match self.check_expr(&args[2]) {
            Ok(t) => t,
            Err(err) => {
                return Err(err);
            },
        };
        match b {
            Type::Integer => {},
            _ => {
                return Err(Self::index_error(callee, &b, line, column));
            },
        }
        match &a {
            Type::Array(elem) => if elem.same_as(&v) {
                Ok(Some(Type::Nil))
            } else {
                Err(Self::onto_error(callee, elem, &v, line, column))
            },
            _ => Err(Self::expects_array_error(callee, &a, line, column)),
        }
    }

    /// `callee(args)`, by the rules of `call_type`.
    fn check_call(&self, callee: &str, args: &Vec<Expr>, line: usize, column: usize) -> (r: Result<Type, TypeError>)
        ensures
            agrees_type(r, call_type(self.state(), callee@, args@, line, column)),
        decreases exprs_size(args@), 3nat,
    {
        let ghost st = self.state();
        if str_eq(callee, "print") {
            let mut i: usize = 0;
            assert(args@.take(0).len() == 0);
            while i < args.len()
                invariant
                    i <= args@.len(),
                    st == self.state(),
                    call_type(st, callee@, args@, line, column) == match print_args(st, args@) {
                        Err(f) => Err(f),
                        Ok(_) => Ok(TypeModel::Nil),
                    },
                    print_args(st, args@.take(i as int)) == Ok::<(), Fault>(()),
                decreases args@.len() - i,
            {
                proof {
                    lemma_elem_size(args@, i as int);
                    let a1 = args@.take(i + 1);
                    assert(a1.drop_last() =~= args@.take(i as int));
                    assert(a1.last() == args@[i as int]);
                }
                match self.check_expr(&args[i]) {
                    Ok(_) => {},
                    Err(err) => {
                        proof { lemma_print_args_prefix(st, args@, i + 1); }
                        return Err(err);
                    },
                }
                i = i + 1;
            }
            assert(args@.take(i as int) =~= args@);
            return Ok(Type::Nil);
        }
        match self.check_array_builtin(callee, args, line, column) {
            Ok(Some(t)) => {
                return Ok(t);
            },
            Ok(None) => {},
            Err(err) => {
                return Err(err);
            },
        }
        let sig = match self.functions.get(callee) {
            Some(sig) => sig,
            None => {
                let mut message = "undefined function ".to_owned();
                let q = backquoted(callee);
                push_str(&mut message, q.as_str());
                return Err(fault(message, line, column));
            },
        };
        if args.len() != sig.param_types.len() {
            let mut what = "function ".to_owned();
            let q = backquoted(callee);
            push_str(&mut what, q.as_str());
            let message = arity_text(what.as_str(), sig.param_types.len(), args.len());
            return Err(fault(message, line, column));
        }
        match self.check_args_match(callee, &sig.param_types, args) {
            Ok(_) => {},
            Err(err) => {
                return Err(err);
            },
        }
        match &sig.return_type {
            Some(rt) => Ok(rt.duplicate()),
            None => Ok(Type::Nil),
        }
    }
}

/// The size of a statement: one per node, expressions included.
pub open spec fn stmt_size(s: Stmt) -> nat
    decreases s,
{
    match s {
        Stmt::VarDecl { value, .. } => 1 + expr_size(value),
        Stmt::ConstDecl { value, .. } => 1 + expr_size(value),
        Stmt::FunctionDef { body, .. } => 1 + stmts_size(body@),
        Stmt::Return { value, .. } => 1 + match value {
            Some(e) => expr_size(e),
            None => 0,
        },
        Stmt::If { condition, then_body, elsif_branches, else_body, .. } => 1 + expr_size(condition) + stmts_size(
            then_body@,
        ) + branches_size(elsif_branches@) + match else_body {
            Some(b) => stmts_size(b@),
            None => 0,
        },
        Stmt::While { condition, body, .. } => 1 + expr_size(condition) + stmts_size(body@),
        Stmt::For { range_start, range_end, body, .. } => 1 + expr_size(range_start) + expr_size(range_end)
            + stmts_size(body@),
        Stmt::ExprStmt(e) => 1 + expr_size(e),
        Stmt::Import { .. } => 1,
        Stmt::ClassDef { consts, methods, .. } => 1 + stmts_size(consts@) + stmts_size(methods@),
        Stmt::FieldAssign { object, value, .. } => 1 + expr_size(object) + expr_size(value),
    }
}

/// The size of a list of statements, plus one per element.
pub open spec fn stmts_size(s: Seq<Stmt>) -> nat
    decreases s,
{
    if s.len() == 0 {
        0
    } else {
        stmts_size(s.drop_last()) + stmt_size(s.last()) + 1
    }
}

/// The size of a list of `elsif` branches, plus one per branch.
pub open spec fn branches_size(b: Seq<(Expr, Vec<Stmt>)>) -> nat
    decreases b,
{
    if b.len() == 0 {
        0
    } else {
        branches_size(b.drop_last()) + expr_size(b.last().0) + stmts_size(b.last().1@) + 1
    }
}

/// Every statement of a list is smaller than the list.
pub proof fn lemma_stmt_elem_size(s: Seq<Stmt>, i: int)
    requires
        0 <= i < s.len(),
    ensures
        stmt_size(s[i]) < stmts_size(s),
        stmts_size(s.drop_last()) < stmts_size(s),
    decreases s.len(),
{
    if i < s.len() - 1 {
        lemma_stmt_elem_size(s.drop_last(), i);
    }
}

/// Every branch of a list is smaller than the list.
pub proof fn lemma_branch_elem_size(b: Seq<(Expr, Vec<Stmt>)>, i: int)
    requires
        0 <= i < b.len(),
    ensures
        expr_size(b[i].0) + stmts_size(b[i].1@) < branches_size(b),
        branches_size(b.drop_last()) < branches_size(b),
    decreases b.len(),
{
    if i < b.len() - 1 {
        lemma_branch_elem_size(b.drop_last(), i);
    }
}

/// `st` with a new empty innermost scope.
pub open spec fn pushed(st: TcState) -> TcState {
    TcState { scopes: st.scopes.push(Map::empty()), ..st }
}

/// `st` without its innermost scope.
pub open spec fn popped(st: TcState) -> TcState {
    TcState { scopes: st.scopes.drop_last(), ..st }
}

/// `st` with `name: t` bound in the innermost scope.
pub open spec fn declared(st: TcState, name: Seq<char>, t: TypeModel) -> TcState {
    TcState { scopes: st.scopes.update(st.scopes.len() - 1, st.scopes.last().insert(name, t)), ..st }
}

/// Whether an annotation name has the pointer form `Ptr<inner>`.
pub open spec fn is_pointer_annotation(name: Seq<char>) -> bool {
    name.len() >= 5 && name.take(4) == "Ptr<"@ && name.last() == '>'
}

/// The `inner` of a pointer annotation `Ptr<inner>`.
pub open spec fn pointee_annotation(name: Seq<char>) -> Seq<char> {
    name.subrange(4, name.len() - 1)
}

/// The type an annotation names: a known class, else a primitive or array
/// name, else an unknown type.
pub open spec fn annotation_resolves(st: TcState, name: Seq<char>, line: usize, column: usize) -> Result<TypeModel, Fault>
    decreases name.len(),
{
    if st.classes.contains_key(name) {
        Ok(TypeModel::Instance(name))
    } else if is_pointer_annotation(name) {
        match annotation_resolves(st, pointee_annotation(name), line, column) {
            Err(f) => Err(f),
            Ok(t) => Ok(TypeModel::Pointer(Box::new(t))),
        }
    } else {
        match annotation_type(name) {
            Some(t) => Ok(t),
            None => Err((unknown_type(name), line, column)),
        }
    }
}

/// The message for a declaration whose value does not have its annotated type.
pub open spec fn declared_mismatch(name: Seq<char>, declared: TypeModel, found: TypeModel) -> Seq<char> {
    "type mismatch for "@ + backq(name) + ": declared "@ + quoted(declared) + ", found "@ + quoted(found)
}

/// The message for a body whose value differs from the declared return type.
pub open spec fn return_mismatch(what: Seq<char>, declared: TypeModel, found: TypeModel) -> Seq<char> {
    what + " declared to return "@ + quoted(declared) + ", but returns "@ + quoted(found)
}

/// Tail values of two sibling branches: equal ones stay, different ones are
/// an error, and a branch with no value makes the whole `if` valueless.
pub open spec fn tail_combined(a: Option<TypeModel>, b: Option<TypeModel>, line: usize, column: usize) -> Result<Option<TypeModel>, Fault> {
    match (a, b) {
        (Some(x), Some(y)) => if x == y {
            Ok(Some(x))
        } else {
            Err((branch_mismatch(x, y), line, column))
        },
        _ => Ok(None),
    }
}

/// A variable or constant declaration: the value's type, checked against an
/// annotation when there is one (an empty array literal fits any array
/// type), bound in the innermost scope under the annotated type if any.
pub open spec fn declaration_check(st: TcState, name: Seq<char>, type_ann: Option<TypeAnnotation>, value: Expr, line: usize, column: usize) -> Result<TcState, Fault> {
    match expr_type(st, value) {
        Err(f) => Err(f),
        Ok(v) => match type_ann {
            None => Ok(declared(st, name, v)),
            Some(ann) => match annotation_resolves(st, ann.name@, ann.line, ann.column) {
                Err(f) => Err(f),
                Ok(d) => if !assignable(d, v) {
                    Err((declared_mismatch(name, d, v), line, column))
                } else {
                    Ok(declared(st, name, d))
                },
            },
        },
    }
}

/// Parameters resolved and bound, left to right, in the innermost scope.
pub open spec fn params_declared(st: TcState, params: Seq<Param>) -> Result<TcState, Fault>
    decreases params.len(),
{
    if params.len() == 0 {
        Ok(st)
    } else {
        match params_declared(st, params.drop_last()) {
            Err(f) => Err(f),
            Ok(st1) => {
                let p = params.last();
                match annotation_resolves(st1, p.type_ann.name@, p.line, p.column) {
                    Err(f) => Err(f),
                    Ok(t) => Ok(declared(st1, p.name@, t)),
                }
            },
        }
    }
}

/// An optional annotation resolved at its own position.
pub open spec fn optional_resolves(st: TcState, ann: Option<TypeAnnotation>) -> Result<Option<TypeModel>, Fault> {
    match ann {
        None => Ok(None),
        Some(t) => match annotation_resolves(st, t.name@, t.line, t.column) {
            Err(f) => Err(f),
            Ok(m) => Ok(Some(m)),
        },
    }
}

/// A condition that must be Boolean.
pub open spec fn condition_check(st: TcState, cond: Expr, what: Seq<char>, line: usize, column: usize) -> Result<(), Fault> {
    match expr_type(st, cond) {
        Err(f) => Err(f),
        Ok(t) => if t != TypeModel::Boolean {
            Err((what + " condition must be Boolean, found "@ + quoted(t), line, column))
        } else {
            Ok(())
        },
    }
}

/// The checker's state after a statement, or the first error. Blocks of
/// `if` and `while` share the enclosing scope; a function body and a `for`
/// body get their own.
pub open spec fn stmt_check(st: TcState, s: Stmt) -> Result<TcState, Fault>
    decreases stmt_size(s), 2nat,
{
    match s {
        Stmt::VarDecl { name, type_ann, value, line, column } => declaration_check(st, name@, type_ann, value, line, column),
        Stmt::ConstDecl { name, type_ann, value, line, column } => declaration_check(st, name@, type_ann, value, line, column),
        Stmt::FunctionDef { name, params, return_type, body, line, column } => match params_declared(pushed(st), params@) {
            Err(f) => Err(f),
            Ok(st1) => match optional_resolves(st1, return_type) {
                Err(f) => Err(f),
                Ok(declared_return) => match body_return(st1, body@) {
                    Err(f) => Err(f),
                    Ok((st2, actual)) => match (declared_return, actual) {
                        (Some(d), Some(a)) => if d != a {
                            Err((return_mismatch("function "@ + backq(name@), d, a), line, column))
                        } else {
                            Ok(popped(st2))
                        },
                        _ => Ok(popped(st2)),
                    },
                },
            },
        },
        Stmt::Return { value, .. } => match value {
            Some(e) => match expr_type(st, e) {
                Err(f) => Err(f),
                Ok(_) => Ok(st),
            },
            None => Ok(st),
        },
        Stmt::If { condition, then_body, elsif_branches, else_body, line, column } => match condition_check(
            st,
            condition,
            "`if`"@,
            line,
            column,
        ) {
            Err(f) => Err(f),
            Ok(_) => match block_check(st, then_body@) {
                Err(f) => Err(f),
                Ok(st1) => match elsifs_check(st1, elsif_branches@) {
                    Err(f) => Err(f),
                    Ok(st2) => match else_body {
                        Some(b) => block_check(st2, b@),
                        None => Ok(st2),
                    },
                },
            },
        },
        Stmt::While { condition, body, line, column } => match condition_check(st, condition, "`while`"@, line, column) {
            Err(f) => Err(f),
            Ok(_) => block_check(st, body@),
        },
        Stmt::For { var_name, range_start, range_end, body, line, column } => match expr_type(st, range_start) {
            Err(f) => Err(f),
            Ok(a) => match expr_type(st, range_end) {
                Err(f) => Err(f),
                Ok(b) => if a != TypeModel::Integer || b != TypeModel::Integer {
                    Err(("`for` range bounds must be Integer"@, line, column))
                } else {
                    match block_check(declared(pushed(st), var_name@, TypeModel::Integer), body@) {
                        Err(f) => Err(f),
                        Ok(st1) => Ok(popped(st1)),
                    }
                },
            },
        },
        Stmt::ExprStmt(e) => match expr_type(st, e) {
            Err(f) => Err(f),
            Ok(_) => Ok(st),
        },
        Stmt::Import { .. } => Ok(st),
        Stmt::ClassDef { .. } => Ok(st),
        Stmt::FieldAssign { object, field, value, line, column } => match field_type(st, object, field@, line, column) {
            Err(f) => Err(f),
            Ok(ft) => match expr_type(st, value) {
                Err(f) => Err(f),
                Ok(vt) => if !assignable(ft, vt) {
                    Err(("cannot assign "@ + quoted(vt) + " to field "@ + backq(field@) + " of type "@ + quoted(ft), line, column))
                } else {
                    Ok(st)
                },
            },
        },
    }
}

/// The statements of a block, in order.
pub open spec fn block_check(st: TcState, body: Seq<Stmt>) -> Result<TcState, Fault>
    decreases stmts_size(body), 1nat,
{
    if body.len() == 0 {
        Ok(st)
    } else {
        proof { lemma_stmt_elem_size(body, body.len() - 1); }
        match block_check(st, body.drop_last()) {
            Err(f) => Err(f),
            Ok(st1) => stmt_check(st1, body.last()),
        }
    }
}

/// The `elsif` branches, in order: each condition Boolean, each body checked.
pub open spec fn elsifs_check(st: TcState, branches: Seq<(Expr, Vec<Stmt>)>) -> Result<TcState, Fault>
    decreases branches_size(branches), 1nat,
{
    if branches.len() == 0 {
        Ok(st)
    } else {
        proof { lemma_branch_elem_size(branches, branches.len() - 1); }
        match elsifs_check(st, branches.drop_last()) {
            Err(f) => Err(f),
            Ok(st1) => {
                let cond = branches.last().0;
                match condition_check(st1, cond, "`elsif`"@, expr_pos(cond).0, expr_pos(cond).1) {
                    Err(f) => Err(f),
                    Ok(_) => block_check(st1, branches.last().1@),
                }
            },
        }
    }
}

/// A body's value type: every statement checked, the last one as a tail.
pub open spec fn body_return(st: TcState, body: Seq<Stmt>) -> Result<(TcState, Option<TypeModel>), Fault>
    decreases stmts_size(body), 1nat,
{
    if body.len() == 0 {
        Ok((st, None))
    } else {
        proof { lemma_stmt_elem_size(body, body.len() - 1); }
        match block_check(st, body.drop_last()) {
            Err(f) => Err(f),
            Ok(st1) => tail_check(st1, body.last()),
        }
    }
}

/// A statement in tail position and the value type it gives: an expression
/// its type, `return` its value's type or `Nil`, an `if` with an `else` the
/// common type of its branches; anything else gives none.
pub open spec fn tail_check(st: TcState, s: Stmt) -> Result<(TcState, Option<TypeModel>), Fault>
    decreases stmt_size(s), 3nat,
{
    match s {
        Stmt::ExprStmt(e) => match expr_type(st, e) {
            Err(f) => Err(f),
            Ok(t) => Ok((st, Some(t))),
        },
        Stmt::Return { value, .. } => match value {
            Some(e) => match expr_type(st, e) {
                Err(f) => Err(f),
                Ok(t) => Ok((st, Some(t))),
            },
            None => Ok((st, Some(TypeModel::Nil))),
        },
        Stmt::If { condition, then_body, elsif_branches, else_body, line, column } => match condition_check(
            st,
            condition,
            "`if`"@,
            line,
            column,
        ) {
            Err(f) => Err(f),
            Ok(_) => match body_return(st, then_body@) {
                Err(f) => Err(f),
                Ok((st1, r0)) => match elsifs_tail(st1, elsif_branches@, r0, line, column) {
                    Err(f) => Err(f),
                    Ok((st2, r1)) => match else_body {
                        Some(b) => match body_return(st2, b@) {
                            Err(f) => Err(f),
                            Ok((st3, rb)) => match tail_combined(r1, rb, line, column) {
                                Err(f) => Err(f),
                                Ok(c) => Ok((st3, c)),
                            },
                        },
                        None => Ok((st2, None)),
                    },
                },
            },
        },
        _ => match stmt_check(st, s) {
            Err(f) => Err(f),
            Ok(st1) => Ok((st1, None)),
        },
    }
}

/// The `elsif` branches of a tail `if`: each condition Boolean, each body's
/// value combined with the value so far.
pub open spec fn elsifs_tail(st: TcState, branches: Seq<(Expr, Vec<Stmt>)>, init: Option<TypeModel>, line: usize, column: usize) -> Result<(TcState, Option<TypeModel>), Fault>
    decreases branches_size(branches), 1nat,
{
    if branches.len() == 0 {
        Ok((st, init))
    } else {
        proof { lemma_branch_elem_size(branches, branches.len() - 1); }
        match elsifs_tail(st, branches.drop_last(), init, line, column) {
            Err(f) => Err(f),
            Ok((st1, r)) => {
                let cond = branches.last().0;
                match condition_check(st1, cond, "`elsif`"@, expr_pos(cond).0, expr_pos(cond).1) {
                    Err(f) => Err(f),
                    Ok(_) => match body_return(st1, branches.last().1@) {
                        Err(f) => Err(f),
                        Ok((st2, b)) => match tail_combined(r, b, line, column) {
                            Err(f) => Err(f),
                            Ok(c) => Ok((st2, c)),
                        },
                    },
                }
            },
        }
    }
}

/// An optional type by its view.
pub open spec fn opt_view(o: Option<Type>) -> Option<TypeModel> {
    match o {
        Some(t) => Some(t@),
        None => None,
    }
}

/// A statement-level checker result against what the rules give: on
/// success the checker's new state is the one given.
pub open spec fn agrees_state(r: Result<(), TypeError>, expected: Result<TcState, Fault>, after: TcState) -> bool {
    match (r, expected) {
        (Ok(_), Ok(st)) => after == st,
        (Err(e), Err(f)) => e.message@ == f.0 && e.line == f.1 && e.column == f.2,
        _ => false,
    }
}

/// A tail-position checker result against what the rules give.
pub open spec fn agrees_tail(r: Result<Option<Type>, TypeError>, expected: Result<(TcState, Option<TypeModel>), Fault>, after: TcState) -> bool {
    match (r, expected) {
        (Ok(None), Ok((st, None))) => after == st,
        (Ok(Some(t)), Ok((st, Some(m)))) => after == st && t@ == m,
        (Err(e), Err(f)) => e.message@ == f.0 && e.line == f.1 && e.column == f.2,
        _ => false,
    }
}

/// Once a prefix of a block fails, the whole block fails the same way.
pub proof fn lemma_block_check_prefix(st: TcState, body: Seq<Stmt>, k: int)
    requires
        0 <= k <= body.len(),
        block_check(st, body.take(k)) is Err,
    ensures
        block_check(st, body) == block_check(st, body.take(k)),
    decreases body.len() - k,
{
    if k < body.len() {
        assert(body.take(k + 1).drop_last() =~= body.take(k));
        lemma_block_check_prefix(st, body, k + 1);
    } else {
        assert(body.take(k) =~= body);
    }
}

/// Once a prefix of the parameters fails, the whole list fails the same way.
pub proof fn lemma_params_declared_prefix(st: TcState, params: Seq<Param>, k: int)
    requires
        0 <= k <= params.len(),
        params_declared(st, params.take(k)) is Err,
    ensures
        params_declared(st, params) == params_declared(st, params.take(k)),
    decreases params.len() - k,
{
    if k < params.len() {
        assert(params.take(k + 1).drop_last() =~= params.take(k));
        lemma_params_declared_prefix(st, params, k + 1);
    } else {
        assert(params.take(k) =~= params);
    }
}

/// Once a prefix of the `elsif` branches fails, all of them fail the same way.
pub proof fn lemma_elsifs_check_prefix(st: TcState, b: Seq<(Expr, Vec<Stmt>)>, k: int)
    requires
        0 <= k <= b.len(),
        elsifs_check(st, b.take(k)) is Err,
    ensures
        elsifs_check(st, b) == elsifs_check(st, b.take(k)),
    decreases b.len() - k,
{
    if k < b.len() {
        assert(b.take(k + 1).drop_last() =~= b.take(k));
        lemma_elsifs_check_prefix(st, b, k + 1);
    } else {
        assert(b.take(k) =~= b);
    }
}

/// Once a prefix of a tail `if`'s `elsif` branches fails, all of them fail the same way.
pub proof fn lemma_elsifs_tail_prefix(st: TcState, b: Seq<(Expr, Vec<Stmt>)>, init: Option<TypeModel>, line: usize, column: usize, k: int)
    requires
        0 <= k <= b.len(),
        elsifs_tail(st, b.take(k), init, line, column) is Err,
    ensures
        elsifs_tail(st, b, init, line, column) == elsifs_tail(st, b.take(k), init, line, column),
    decreases b.len() - k,
{
    if k < b.len() {
        assert(b.take(k + 1).drop_last() =~= b.take(k));
        lemma_elsifs_tail_prefix(st, b, init, line, column, k + 1);
    } else {
        assert(b.take(k) =~= b);
    }
}

impl TypeChecker {
    /// A condition that must be Boolean, by the rules of `condition_check`.
    fn check_condition(&self, cond: &Expr, what: &str, line: usize, column: usize) -> (r: Result<(), TypeError>)
        ensures
            agrees_unit(r, condition_check(self.state(), *cond, what@, line, column)),
    {
        let t = match self.check_expr(cond) {
            Ok(t) => t,
            Err(err) => {
                return Err(err);
            },
        };
        match t {
            Type::Boolean => Ok(()),
            _ => {
                let mut message = what.to_owned();
                push_str(&mut message, " condition must be Boolean, found ");
                let q = quoted_type(&t);
                push_str(&mut message, q.as_str());
                Err(fault(message, line, column))
            },
        }
    }

    /// A variable or constant declaration, by the rules of `declaration_check`.
    fn check_declaration(
        &mut self,
        name: &str,
        type_ann: &Option<TypeAnnotation>,
        value: &Expr,
        line: usize,
        column: usize,
    ) -> (r: Result<(), TypeError>)
        requires
            old(self).scopes().len() > 0,
        ensures
            final(self).state().classes == old(self).state().classes,
            final(self).state().functions == old(self).state().functions,
            agrees_state(r, declaration_check(old(self).state(), name@, *type_ann, *value, line, column), final(self).state()),
            r is Ok ==> final(self).scopes().len() == old(self).scopes().len(),
            r is Err ==> final(self).state() == old(self).state(),
    {
        proof { reveal_with_fuel(type_model, 2); }
        let v = match self.check_expr(value) {
            Ok(t) => t,
            Err(err) => {
                return Err(err);
            },
        };
        let stored = match type_ann {
            None => v,
            Some(ann) => {
                let d = match self.resolve_type(ann.name.as_str(), ann.line, ann.column) {
                    Ok(t) => t,
                    Err(err) => {
                        return Err(err);
                    },
                };
                if !d.accepts(&v) {
                    let mut message = "type mismatch for ".to_owned();
                    let n = backquoted(name);
                    push_str(&mut message, n.as_str());
                    push_str(&mut message, ": declared ");
                    let dq = quoted_type(&d);
                    push_str(&mut message, dq.as_str());
                    push_str(&mut message, ", found ");
                    let vq = quoted_type(&v);
                    push_str(&mut message, vq.as_str());
                    assert(message@ =~= declared_mismatch(name@, d@, v@));
                    return Err(fault(message, line, column));
                }
                d
            },
        };
        self.declare_var(name, stored);
        Ok(())
    }

    /// Parameters resolved and bound in the innermost scope, by the rules of `params_declared`.
    fn declare_params(&mut self, params: &Vec<Param>) -> (r: Result<(), TypeError>)
        requires
            old(self).scopes().len() > 0,
        ensures
            final(self).state().classes == old(self).state().classes,
            final(self).state().functions == old(self).state().functions,
            agrees_state(r, params_declared(old(self).state(), params@), final(self).state()),
            r is Ok ==> final(self).scopes().len() == old(self).scopes().len(),
    {
        let ghost st0 = self.state();
        let ghost n0 = self.scopes().len();
        let mut i: usize = 0;
        assert(params@.take(0).len() == 0);
        while i < params.len()
            invariant
                self.state().classes == old(self).state().classes,
                self.state().functions == old(self).state().functions,
                i <= params@.len(),
                self.scopes().len() == n0,
                n0 > 0,
                st0 == old(self).state(),
                params_declared(st0, params@.take(i as int)) == Ok::<TcState, Fault>(self.state()),
            decreases params@.len() - i,
        {
            let p = &params[i];
            proof {
                assert(params@.take(i + 1).drop_last() =~= params@.take(i as int));
                assert(params@.take(i + 1).last() == *p);
            }
            let t = match self.resolve_type(p.type_ann.name.as_str(), p.line, p.column) {
                Ok(t) => t,
                Err(err) => {
                    proof { lemma_params_declared_prefix(st0, params@, i + 1); }
                    return Err(err);
                },
            };
            self.declare_var(p.name.as_str(), t);
            i = i + 1;
        }
        assert(params@.take(i as int) =~= params@);
        Ok(())
    }

    /// An optional annotation resolved at its own position.
    fn resolve_optional(&self, ann: &Option<TypeAnnotation>) -> (r: Result<Option<Type>, TypeError>)
        ensures
            agrees_opt(r, optional_resolves(self.state(), *ann)),
    {
        match ann {
            None => Ok(None),
            Some(t) => match self.resolve_type(t.name.as_str(), t.line, t.column) {
                Ok(m) => Ok(Some(m)),
                Err(err) => Err(err),
            },
        }
    }
}

impl TypeChecker {
    /// A statement, by the rules of `stmt_check`.
    fn check_stmt(&mut self, s: &Stmt) -> (r: Result<(), TypeError>)
        requires
            old(self).scopes().len() > 0,
        ensures
            final(self).state().classes == old(self).state().classes,
            final(self).state().functions == old(self).state().functions,
            agrees_state(r, stmt_check(old(self).state(), *s), final(self).state()),
            r is Ok ==> final(self).scopes().len() == old(self).scopes().len(),
            r is Err && !(s is FunctionDef || s is If || s is While || s is For) ==> final(self).state() == old(self).state(),
        decreases stmt_size(*s), 2nat,
    {
        match s {
            Stmt::VarDecl { name, type_ann, value, line, column } => self.check_declaration(
                name.as_str(),
                type_ann,
                value,
                *line,
                *column,
            ),
            Stmt::ConstDecl { name, type_ann, value, line, column } => self.check_declaration(
                name.as_str(),
                type_ann,
                value,
                *line,
                *column,
            ),
            Stmt::FunctionDef { .. } => self.check_function_def(s),
            Stmt::Return { value, .. } => match value {
                Some(e) => match self.check_expr(e) {
                    Ok(_) => Ok(()),
                    Err(err) => Err(err),
                },
                None => Ok(()),
            },
            Stmt::If { .. } => self.check_if(s),
            Stmt::While { condition, body, line, column } => {
                match self.check_condition(condition, "`while`", *line, *column) {
                    Ok(_) => {},
                    Err(err) => {
                        return Err(err);
                    },
                }
                self.check_block(body)
            },
            Stmt::For { .. } => self.check_for(s),
            Stmt::ExprStmt(e) => match self.check_expr(e) {
                Ok(_) => Ok(()),
                Err(err) => Err(err),
            },
            Stmt::Import { .. } => Ok(()),
            Stmt::ClassDef { .. } => Ok(()),
            Stmt::FieldAssign { object, field, value, line, column } => {
                let ft = match self.check_field_access(object, field.as_str(), *line, *column) {
                    Ok(t) => t,
                    Err(err) => {
                        return Err(err);
                    },
                };
                let vt = match self.check_expr(value) {
                    Ok(t) => t,
                    Err(err) => {
                        return Err(err);
                    },
                };
                if !ft.accepts(&vt) {
                    let mut message = "cannot assign ".to_owned();
                    let vq = quoted_type(&vt);
                    push_str(&mut message, vq.as_str());
                    push_str(&mut message, " to field ");
                    let f = backquoted(field.as_str());
                    push_str(&mut message, f.as_str());
                    push_str(&mut message, " of type ");
                    let fq = quoted_type(&ft);
                    push_str(&mut message, fq.as_str());
                    assert(message@ =~= "cannot assign "@ + quoted(vt@) + " to field "@ + backq(field@) + " of type "@ + quoted(ft@));
                    return Err(fault(message, *line, *column));
                }
                Ok(())
            },
        }
    }

    /// A function definition: parameters and body in a scope of their own,
    /// the body's value against the declared return type.
    fn check_function_def(&mut self, s: &Stmt) -> (r: Result<(), TypeError>)
        requires
            s is FunctionDef,
            old(self).scopes().len() > 0,
        ensures
            final(self).state().classes == old(self).state().classes,
            final(self).state().functions == old(self).state().functions,
            agrees_state(r, stmt_check(old(self).state(), *s), final(self).state()),
            r is Ok ==> final(self).scopes().len() == old(self).scopes().len(),
        decreases stmt_size(*s), 1nat,
    {
        let (name, params, return_type, body, line, column) = match s {
            Stmt::FunctionDef { name, params, return_type, body, line, column } => (
                name,
                params,
                return_type,
                body,
                line,
                column,
            ),
            _ => {
                return Ok(());
            },
        };
        let ghost st0 = self.state();
        self.push_scope();
        match self.declare_params(params) {
            Ok(_) => {},
            Err(err) => {
                return Err(err);
            },
        }
        let declared_return = match self.resolve_optional(return_type) {
            Ok(t) => t,
            Err(err) => {
                return Err(err);
            },
        };
        let actual = match self.check_body_return_type(body) {
            Ok(t) => t,
            Err(err) => {
                return Err(err);
            },
        };
        match (&declared_return, &actual) {
            (Some(d), Some(a)) => {
                if !d.same_as(a) {
                    self.pop_scope();
                    let mut message = "function ".to_owned();
                    let n = backquoted(name.as_str());
                    push_str(&mut message, n.as_str());
                    push_str(&mut message, " declared to return ");
                    let dq = quoted_type(d);
                    push_str(&mut message, dq.as_str());
                    push_str(&mut message, ", but returns ");
                    let aq = quoted_type(a);
                    push_str(&mut message, aq.as_str());
                    assert(message@ =~= return_mismatch("function "@ + backq(name@), d@, a@));
                    return Err(fault(message, *line, *column));
                }
            },
            _ => {},
        }
        self.pop_scope();
        Ok(())
    }

    /// An `if` statement: condition, then-block, each `elsif`, the `else`.
    fn check_if(&mut self, s: &Stmt) -> (r: Result<(), TypeError>)
        requires
            s is If,
            old(self).scopes().len() > 0,
        ensures
            final(self).state().classes == old(self).state().classes,
            final(self).state().functions == old(self).state().functions,
            agrees_state(r, stmt_check(old(self).state(), *s), final(self).state()),
            r is Ok ==> final(self).scopes().len() == old(self).scopes().len(),
        decreases stmt_size(*s), 1nat,
    {
        let (condition, then_body, elsif_branches, else_body, line, column) = match s {
            Stmt::If { condition, then_body, elsif_branches, else_body, line, column } => (
                condition,
                then_body,
                elsif_branches,
                else_body,
                line,
                column,
            ),
            _ => {
                return Ok(());
            },
        };
        match self.check_condition(condition, "`if`", *line, *column) {
            Ok(_) => {},
            Err(err) => {
                return Err(err);
            },
        }
        match self.check_block(then_body) {
            Ok(_) => {},
            Err(err) => {
                return Err(err);
            },
        }
        let ghost st1 = self.state();
        let ghost n0 = self.scopes().len();
        let mut i: usize = 0;
        assert(elsif_branches@.take(0).len() == 0);
        while i < elsif_branches.len()
            invariant
                self.state().classes == old(self).state().classes,
                self.state().functions == old(self).state().functions,
                i <= elsif_branches@.len(),
                self.scopes().len() == n0,
                n0 > 0,
                branches_size(elsif_branches@) < stmt_size(*s),
                elsifs_check(st1, elsif_branches@.take(i as int)) == Ok::<TcState, Fault>(self.state()),
                stmt_check(old(self).state(), *s) == match elsifs_check(st1, elsif_branches@) {
                    Err(f) => Err(f),
                    Ok(st2) => match *else_body {
                        Some(b) => block_check(st2, b@),
                        None => Ok(st2),
                    },
                },
            decreases elsif_branches@.len() - i,
        {
            let branch = &elsif_branches[i];
            proof {
                lemma_branch_elem_size(elsif_branches@, i as int);
                assert(elsif_branches@.take(i + 1).drop_last() =~= elsif_branches@.take(i as int));
                assert(elsif_branches@.take(i + 1).last() == *branch);
            }
            let cond = &branch.0;
            match self.check_condition(cond, "`elsif`", cond.line(), cond.column()) {
                Ok(_) => {},
                Err(err) => {
                    proof { lemma_elsifs_check_prefix(st1, elsif_branches@, i + 1); }
                    return Err(err);
                },
            }
            match self.check_block(&branch.1) {
                Ok(_) => {},
                Err(err) => {
                    proof { lemma_elsifs_check_prefix(st1, elsif_branches@, i + 1); }
                    return Err(err);
                },
            }
            i = i + 1;
        }
        assert(elsif_branches@.take(i as int) =~= elsif_branches@);
        match else_body {
            Some(b) => self.check_block(b),
            None => Ok(()),
        }
    }

    /// A `for` loop: Integer bounds, the body in a scope of its own with the
    /// loop variable bound to Integer.
    fn check_for(&mut self, s: &Stmt) -> (r: Result<(), TypeError>)
        requires
            s is For,
            old(self).scopes().len() > 0,
        ensures
            final(self).state().classes == old(self).state().classes,
            final(self).state().functions == old(self).state().functions,
            agrees_state(r, stmt_check(old(self).state(), *s), final(self).state()),
            r is Ok ==> final(self).scopes().len() == old(self).scopes().len(),
        decreases stmt_size(*s), 1nat,
    {
        let (var_name, range_start, range_end, body, line, column) = match s {
            Stmt::For { var_name, range_start, range_end, body, line, column } => (
                var_name,
                range_start,
                range_end,
                body,
                line,
                column,
            ),
            _ => {
                return Ok(());
            },
        };
        let a = match self.check_expr(range_start) {
            Ok(t) => t,
            Err(err) => {
                return Err(err);
            },
        };
        let b = match self.check_expr(range_end) {
            Ok(t) => t,
            Err(err) => {
                return Err(err);
            },
        };
        let both_integer = match (&a, &b) {
            (Type::Integer, Type::Integer) => true,
            _ => false,
        };
        if !both_integer {
            return Err(fault("`for` range bounds must be Integer".to_owned(), *line, *column));
        }
        self.push_scope();
        self.declare_var(var_name.as_str(), Type::Integer);
        match self.check_block(body) {
            Ok(_) => {},
            Err(err) => {
                return Err(err);
            },
        }
        self.pop_scope();
        Ok(())
    }

    /// The statements of a block, in order, by the rules of `block_check`.
    fn check_block(&mut self, body: &Vec<Stmt>) -> (r: Result<(), TypeError>)
        requires
            old(self).scopes().len() > 0,
        ensures
            final(self).state().classes == old(self).state().classes,
            final(self).state().functions == old(self).state().functions,
            agrees_state(r, block_check(old(self).state(), body@), final(self).state()),
            r is Ok ==> final(self).scopes().len() == old(self).scopes().len(),
        decreases stmts_size(body@), 1nat,
    {
        let ghost st0 = self.state();
        let ghost n0 = self.scopes().len();
        let mut i: usize = 0;
        assert(body@.take(0).len() == 0);
        while i < body.len()
            invariant
                self.state().classes == old(self).state().classes,
                self.state().functions == old(self).state().functions,
                i <= body@.len(),
                self.scopes().len() == n0,
                n0 > 0,
                st0 == old(self).state(),
                block_check(st0, body@.take(i as int)) == Ok::<TcState, Fault>(self.state()),
            decreases body@.len() - i,
        {
            proof {
                lemma_stmt_elem_size(body@, i as int);
                assert(body@.take(i + 1).drop_last() =~= body@.take(i as int));
                assert(body@.take(i + 1).last() == body@[i as int]);
            }
            match self.check_stmt(&body[i]) {
                Ok(_) => {},
                Err(err) => {
                    proof { lemma_block_check_prefix(st0, body@, i + 1); }
                    return Err(err);
                },
            }
            i = i + 1;
        }
        assert(body@.take(i as int) =~= body@);
        Ok(())
    }

    /// A body's value type, by the rules of `body_return`.
    fn check_body_return_type(&mut self, body: &Vec<Stmt>) -> (r: Result<Option<Type>, TypeError>)
        requires
            old(self).scopes().len() > 0,
        ensures
            final(self).state().classes == old(self).state().classes,
            final(self).state().functions == old(self).state().functions,
            agrees_tail(r, body_return(old(self).state(), body@), final(self).state()),
            r is Ok ==> final(self).scopes().len() == old(self).scopes().len(),
        decreases stmts_size(body@), 1nat,
    {
        if body.len() == 0 {
            return Ok(None);
        }
        let ghost st0 = self.state();
        let ghost n0 = self.scopes().len();
        let last = body.len() - 1;
        let mut i: usize = 0;
        assert(body@.take(0).len() == 0);
        while i < last
            invariant
                self.state().classes == old(self).state().classes,
                self.state().functions == old(self).state().functions,
                i <= last,
                last == body@.len() - 1,
                self.scopes().len() == n0,
                n0 > 0,
                st0 == old(self).state(),
                block_check(st0, body@.take(i as int)) == Ok::<TcState, Fault>(self.state()),
            decreases last - i,
        {
            proof {
                lemma_stmt_elem_size(body@, i as int);
                assert(body@.take(i + 1).drop_last() =~= body@.take(i as int));
                assert(body@.take(i + 1).last() == body@[i as int]);
            }
            match self.check_stmt(&body[i]) {
                Ok(_) => {},
                Err(err) => {
                    proof {
                        assert(body@.drop_last().take(i + 1) =~= body@.take(i + 1));
                        lemma_block_check_prefix(st0, body@.drop_last(), i + 1);
                    }
                    return Err(err);
                },
            }
            i = i + 1;
        }
        proof {
            assert(body@.take(i as int) =~= body@.drop_last());
            lemma_stmt_elem_size(body@, last as int);
        }
        self.check_tail_stmt(&body[last])
    }

    /// A statement in tail position, by the rules of `tail_check`.
    fn check_tail_stmt(&mut self, s: &Stmt) -> (r: Result<Option<Type>, TypeError>)
        requires
            old(self).scopes().len() > 0,
        ensures
            final(self).state().classes == old(self).state().classes,
            final(self).state().functions == old(self).state().functions,
            agrees_tail(r, tail_check(old(self).state(), *s), final(self).state()),
            r is Ok ==> final(self).scopes().len() == old(self).scopes().len(),
        decreases stmt_size(*s), 3nat,
    {
        match s {
            Stmt::ExprStmt(e) => match self.check_expr(e) {
                Ok(t) => Ok(Some(t)),
                Err(err) => Err(err),
            },
            Stmt::Return { value, .. } => match value {
                Some(e) => match self.check_expr(e) {
                    Ok(t) => Ok(Some(t)),
                    Err(err) => Err(err),
                },
                None => Ok(Some(Type::Nil)),
            },
            Stmt::If { .. } => self.check_tail_if(s),
            _ => match self.check_stmt(s) {
                Ok(_) => Ok(None),
                Err(err) => Err(err),
            },
        }
    }

    /// An `if` in tail position: the common value type of its branches.
    fn check_tail_if(&mut self, s: &Stmt) -> (r: Result<Option<Type>, TypeError>)
        requires
            s is If,
            old(self).scopes().len() > 0,
        ensures
            final(self).state().classes == old(self).state().classes,
            final(self).state().functions == old(self).state().functions,
            agrees_tail(r, tail_check(old(self).state(), *s), final(self).state()),
            r is Ok ==> final(self).scopes().len() == old(self).scopes().len(),
        decreases stmt_size(*s), 2nat,
    {
        let (condition, then_body, elsif_branches, else_body, line, column) = match s {
            Stmt::If { condition, then_body, elsif_branches, else_body, line, column } => (
                condition,
                then_body,
                elsif_branches,
                else_body,
                line,
                column,
            ),
            _ => {
                return Ok(None);
            },
        };
        match self.check_condition(condition, "`if`", *line, *column) {
            Ok(_) => {},
            Err(err) => {
                return Err(err);
            },
        }
        let mut result = match self.check_body_return_type(then_body) {
            Ok(t) => t,
            Err(err) => {
                return Err(err);
            },
        };
        let ghost st1 = self.state();
        let ghost r0 = opt_view(result);
        let ghost n0 = self.scopes().len();
        let mut i: usize = 0;
        assert(elsif_branches@.take(0).len() == 0);
        while i < elsif_branches.len()
            invariant
                self.state().classes == old(self).state().classes,
                self.state().functions == old(self).state().functions,
                i <= elsif_branches@.len(),
                self.scopes().len() == n0,
                n0 > 0,
                branches_size(elsif_branches@) < stmt_size(*s),
                elsifs_tail(st1, elsif_branches@.take(i as int), r0, *line, *column) == Ok::<
                    (TcState, Option<TypeModel>),
                    Fault,
>((self.state(), opt_view(result))),
                tail_check(old(self).state(), *s) == match elsifs_tail(st1, elsif_branches@, r0, *line, *column) {
                    Err(f) => Err(f),
                    Ok((st2, r1)) => match *else_body {
                        Some(b) => match body_return(st2, b@) {
                            Err(f) => Err(f),
                            Ok((st3, rb)) => match tail_combined(r1, rb, *line, *column) {
                                Err(f) => Err(f),
                                Ok(c) => Ok((st3, c)),
                            },
                        },
                        None => Ok((st2, None)),
                    },
                },
            decreases elsif_branches@.len() - i,
        {
            let branch = &elsif_branches[i];
            proof {
                lemma_branch_elem_size(elsif_branches@, i as int);
                assert(elsif_branches@.take(i + 1).drop_last() =~= elsif_branches@.take(i as int));
                assert(elsif_branches@.take(i + 1).last() == *branch);
            }
            let cond = &branch.0;
            match self.check_condition(cond, "`elsif`", cond.line(), cond.column()) {
                Ok(_) => {},
                Err(err) => {
                    proof { lemma_elsifs_tail_prefix(st1, elsif_branches@, r0, *line, *column, i + 1); }
                    return Err(err);
                },
            }
            let branch_type = match self.check_body_return_type(&branch.1) {
                Ok(t) => t,
                Err(err) => {
                    proof { lemma_elsifs_tail_prefix(st1, elsif_branches@, r0, *line, *column, i + 1); }
                    return Err(err);
                },
            };
            result = match TypeChecker::combine_tail_types(result, branch_type, *line, *column) {
                Ok(t) => t,
                Err(err) => {
                    proof { lemma_elsifs_tail_prefix(st1, elsif_branches@, r0, *line, *column, i + 1); }
                    return Err(err);
                },
            };
            i = i + 1;
        }
        assert(elsif_branches@.take(i as int) =~= elsif_branches@);
        match else_body {
            Some(b) => {
                let branch_type = match self.check_body_return_type(b) {
                    Ok(t) => t,
                    Err(err) => {
                        return Err(err);
                    },
                };
                TypeChecker::combine_tail_types(result, branch_type, *line, *column)
            },
            None => Ok(None),
        }
    }
}

/// A class with no fields and no methods, as every class starts out.
pub open spec fn empty_class() -> ClassModel {
    ClassModel { fields: Map::empty(), methods: Map::empty() }
}

/// Every class name of the program registered, each new one as an empty class.
pub open spec fn class_names_registered(classes: Map<Seq<char>, ClassModel>, program: Seq<Stmt>) -> Map<Seq<char>, ClassModel>
    decreases program.len(),
{
    if program.len() == 0 {
        classes
    } else {
        let before = class_names_registered(classes, program.drop_last());
        match program.last() {
            Stmt::ClassDef { name, .. } => if before.contains_key(name@) {
                before
            } else {
                before.insert(name@, empty_class())
            },
            _ => before,
        }
    }
}

/// The parser puts only constant declarations among a class's constants
/// and only function definitions among its methods.
pub open spec fn class_shapes_ok(program: Seq<Stmt>) -> bool {
    forall|i: int| 0 <= i < program.len() ==> #[trigger] class_shape_ok(program[i])
}

/// A class definition whose constants and methods have the parser's shapes.
pub open spec fn class_shape_ok(s: Stmt) -> bool {
    match s {
        Stmt::ClassDef { consts, methods, .. } => (forall|j: int| 0 <= j < consts@.len() ==> #[trigger] consts@[j] is ConstDecl)
            && (forall|j: int| 0 <= j < methods@.len() ==> #[trigger] methods@[j] is FunctionDef),
        _ => true,
    }
}

/// A class's constants and fields, in order, each with its resolved type;
/// a constant needs an annotation.
pub open spec fn class_fields(st: TcState, consts: Seq<Stmt>, fields: Seq<FieldDecl>) -> Result<Map<Seq<char>, TypeModel>, Fault>
    decreases consts.len() + fields.len(),
{
    if fields.len() > 0 {
        match class_fields(st, consts, fields.drop_last()) {
            Err(f) => Err(f),
            Ok(m) => {
                let f = fields.last();
                match annotation_resolves(st, f.type_ann.name@, f.line, f.column) {
                    Err(e) => Err(e),
                    Ok(t) => Ok(m.insert(f.name@, t)),
                }
            },
        }
    } else if consts.len() > 0 {
        match class_fields(st, consts.drop_last(), fields) {
            Err(f) => Err(f),
            Ok(m) => match consts.last() {
                Stmt::ConstDecl { name, type_ann, line, column, .. } => match type_ann {
                    None => Err(("class constants require an explicit type annotation"@, line, column)),
                    Some(ann) => match annotation_resolves(st, ann.name@, ann.line, ann.column) {
                        Err(e) => Err(e),
                        Ok(t) => Ok(m.insert(name@, t)),
                    },
                },
                _ => Ok(m),
            },
        }
    } else {
        Ok(Map::empty())
    }
}

/// Parameter types resolved, left to right.
pub open spec fn param_types(st: TcState, params: Seq<Param>) -> Result<Seq<TypeModel>, Fault>
    decreases params.len(),
{
    if params.len() == 0 {
        Ok(Seq::empty())
    } else {
        match param_types(st, params.drop_last()) {
            Err(f) => Err(f),
            Ok(ts) => {
                let p = params.last();
                match annotation_resolves(st, p.type_ann.name@, p.line, p.column) {
                    Err(f) => Err(f),
                    Ok(t) => Ok(ts.push(t)),
                }
            },
        }
    }
}

/// A definition's signature: its parameter types, then its return type
/// resolved at the definition's own position.
pub open spec fn signature_of(st: TcState, def: Stmt) -> Result<SigModel, Fault> {
    match def {
        Stmt::FunctionDef { params, return_type, line, column, .. } => match param_types(st, params@) {
            Err(f) => Err(f),
            Ok(ps) => match return_type {
                None => Ok(SigModel { params: ps, ret: None }),
                Some(t) => match annotation_resolves(st, t.name@, line, column) {
                    Err(f) => Err(f),
                    Ok(r) => Ok(SigModel { params: ps, ret: Some(r) }),
                },
            },
        },
        _ => Ok(SigModel { params: Seq::empty(), ret: None }),
    }
}

/// A class's method signatures, in order; a later method of the same name wins.
pub open spec fn class_methods(st: TcState, methods: Seq<Stmt>) -> Result<Map<Seq<char>, SigModel>, Fault>
    decreases methods.len(),
{
    if methods.len() == 0 {
        Ok(Map::empty())
    } else {
        match class_methods(st, methods.drop_last()) {
            Err(f) => Err(f),
            Ok(m) => match signature_of(st, methods.last()) {
                Err(f) => Err(f),
                Ok(sig) => Ok(m.insert(methods.last()->FunctionDef_name@, sig)),
            },
        }
    }
}

/// The second pass over the classes: each one's fields and method signatures.
pub open spec fn classes_described(st: TcState, program: Seq<Stmt>) -> Result<TcState, Fault>
    decreases program.len(),
{
    if program.len() == 0 {
        Ok(st)
    } else {
        match classes_described(st, program.drop_last()) {
            Err(f) => Err(f),
            Ok(st1) => match program.last() {
                Stmt::ClassDef { name, consts, fields, methods, .. } => match class_fields(st1, consts@, fields@) {
                    Err(f) => Err(f),
                    Ok(fm) => match class_methods(st1, methods@) {
                        Err(f) => Err(f),
                        Ok(mm) => Ok(TcState {
                            classes: st1.classes.insert(name@, ClassModel { fields: fm, methods: mm }),
                            ..st1
                        }),
                    },
                },
                _ => Ok(st1),
            },
        }
    }
}

/// The passes over the classes: every name registered first, so any
/// annotation may name any class; then each class described by its own
/// members; then inheritance resolved.
pub open spec fn classes_collected(st: TcState, program: Seq<Stmt>) -> Result<TcState, Fault> {
    match classes_described(TcState { classes: class_names_registered(st.classes, program), ..st }, program) {
        Err(f) => Err(f),
        Ok(st1) => inheritance_resolved(st1, program),
    }
}

/// The parent each class names; for a class defined more than once, the
/// last definition that names one.
pub open spec fn class_parents(program: Seq<Stmt>) -> Map<Seq<char>, Seq<char>>
    decreases program.len(),
{
    if program.len() == 0 {
        Map::empty()
    } else {
        let before = class_parents(program.drop_last());
        match program.last() {
            Stmt::ClassDef { name, parent, .. } => match parent {
                Some(p) => before.insert(name@, p@),
                None => before,
            },
            _ => before,
        }
    }
}

/// Where the last definition of class `name` stands.
pub open spec fn class_position(program: Seq<Stmt>, name: Seq<char>) -> (usize, usize)
    decreases program.len(),
{
    if program.len() == 0 {
        (0, 0)
    } else {
        match program.last() {
            Stmt::ClassDef { name: n, line, column, .. } => if n@ == name {
                (line, column)
            } else {
                class_position(program.drop_last(), name)
            },
            _ => class_position(program.drop_last(), name),
        }
    }
}

/// The message for a class whose parent is no class of the program.
pub open spec fn unknown_parent_message(child: Seq<char>, parent: Seq<char>) -> Seq<char> {
    "class "@ + backq(child) + " inherits from unknown class "@ + backq(parent)
}

/// The message for a class whose ancestry comes back to itself.
pub open spec fn cycle_message(class: Seq<char>) -> Seq<char> {
    "inheritance cycle detected: class "@ + backq(class) + " is circular"@
}

/// Going through the first `k` statements: the first class whose parent is
/// not a known class, reported at that class's (last) definition.
pub open spec fn parents_known(classes: Map<Seq<char>, ClassModel>, program: Seq<Stmt>, k: nat) -> Result<(), Fault>
    decreases k,
{
    if k == 0 || k > program.len() {
        Ok(())
    } else {
        match parents_known(classes, program, (k - 1) as nat) {
            Err(f) => Err(f),
            Ok(_) => match program[k - 1] {
                Stmt::ClassDef { name, .. } => {
                    let parents = class_parents(program);
                    if parents.contains_key(name@) && !classes.contains_key(parents[name@]) {
                        let pos = class_position(program, name@);
                        Err((unknown_parent_message(name@, parents[name@]), pos.0, pos.1))
                    } else {
                        Ok(())
                    }
                },
                _ => Ok(()),
            },
        }
    }
}

/// Following parents up from the last class of `path` for at most `fuel`
/// more steps: the class whose parent is already on the path, if the walk
/// comes back on itself.
pub open spec fn cycle_from(parents: Map<Seq<char>, Seq<char>>, path: Seq<Seq<char>>, fuel: nat) -> Option<Seq<char>>
    decreases fuel,
{
    let c = path.last();
    if !parents.contains_key(c) {
        None
    } else if path.contains(parents[c]) {
        Some(c)
    } else if fuel == 0 {
        None
    } else {
        cycle_from(parents, path.push(parents[c]), (fuel - 1) as nat)
    }
}

/// Going through the first `k` statements: the first class whose ancestry
/// is circular, reported at the class that closes the circle.
pub open spec fn cycles_absent(parents: Map<Seq<char>, Seq<char>>, program: Seq<Stmt>, k: nat) -> Result<(), Fault>
    decreases k,
{
    if k == 0 || k > program.len() {
        Ok(())
    } else {
        match cycles_absent(parents, program, (k - 1) as nat) {
            Err(f) => Err(f),
            Ok(_) => match program[k - 1] {
                Stmt::ClassDef { name, .. } => match cycle_from(parents, seq![name@], program.len()) {
                    Some(x) => {
                        let pos = class_position(program, x);
                        Err((cycle_message(x), pos.0, pos.1))
                    },
                    None => Ok(()),
                },
                _ => Ok(()),
            },
        }
    }
}

/// A class's fields with its ancestors' (up to `fuel` generations): a
/// field of the class itself wins over an inherited one of the same name,
/// and a nearer ancestor's over a farther one's.
pub open spec fn flat_fields(classes: Map<Seq<char>, ClassModel>, parents: Map<Seq<char>, Seq<char>>, c: Seq<char>, fuel: nat) -> Map<Seq<char>, TypeModel>
    decreases fuel,
{
    if fuel > 0 && parents.contains_key(c) && classes.contains_key(parents[c]) {
        flat_fields(classes, parents, parents[c], (fuel - 1) as nat).union_prefer_right(classes[c].fields)
    } else {
        classes[c].fields
    }
}

/// A class's method signatures with its ancestors', the nearest one winning.
pub open spec fn flat_methods(classes: Map<Seq<char>, ClassModel>, parents: Map<Seq<char>, Seq<char>>, c: Seq<char>, fuel: nat) -> Map<Seq<char>, SigModel>
    decreases fuel,
{
    if fuel > 0 && parents.contains_key(c) && classes.contains_key(parents[c]) {
        flat_methods(classes, parents, parents[c], (fuel - 1) as nat).union_prefer_right(classes[c].methods)
    } else {
        classes[c].methods
    }
}

/// Every class with what it inherits merged in.
pub open spec fn inherited(classes: Map<Seq<char>, ClassModel>, parents: Map<Seq<char>, Seq<char>>, fuel: nat) -> Map<Seq<char>, ClassModel> {
    Map::new(
        |c: Seq<char>| classes.contains_key(c),
        |c: Seq<char>| ClassModel { fields: flat_fields(classes, parents, c, fuel), methods: flat_methods(classes, parents, c, fuel) },
    )
}

/// The inheritance pass: every parent must be a known class and no
/// ancestry circular; then each class gets its ancestors' fields and
/// methods. Walks are bounded by the number of statements, which no
/// acyclic ancestry exceeds.
pub open spec fn inheritance_resolved(st: TcState, program: Seq<Stmt>) -> Result<TcState, Fault> {
    let parents = class_parents(program);
    match parents_known(st.classes, program, program.len()) {
        Err(f) => Err(f),
        Ok(_) => match cycles_absent(parents, program, program.len()) {
            Err(f) => Err(f),
            Ok(_) => Ok(TcState { classes: inherited(st.classes, parents, program.len()), ..st }),
        },
    }
}

/// The names a body assigns, anywhere inside (flow-insensitively): bare
/// assignments and field assignments, through `if`, `while` and `for` bodies.
pub open spec fn assigned_names(body: Seq<Stmt>) -> Set<Seq<char>>
    decreases stmts_size(body), 1nat,
{
    if body.len() == 0 {
        Set::empty()
    } else {
        proof { lemma_stmt_elem_size(body, body.len() - 1); }
        assigned_names(body.drop_last()).union(assigned_in(body.last()))
    }
}

/// The names one statement assigns.
pub open spec fn assigned_in(s: Stmt) -> Set<Seq<char>>
    decreases stmt_size(s), 2nat,
{
    match s {
        Stmt::VarDecl { name, .. } => set![name@],
        Stmt::FieldAssign { field, .. } => set![field@],
        Stmt::If { then_body, elsif_branches, else_body, .. } => assigned_names(then_body@).union(
            assigned_in_branches(elsif_branches@),
        ).union(match else_body {
            Some(b) => assigned_names(b@),
            None => Set::empty(),
        }),
        Stmt::While { body, .. } => assigned_names(body@),
        Stmt::For { body, .. } => assigned_names(body@),
        _ => Set::empty(),
    }
}

/// The names the bodies of `elsif` branches assign.
pub open spec fn assigned_in_branches(b: Seq<(Expr, Vec<Stmt>)>) -> Set<Seq<char>>
    decreases branches_size(b), 1nat,
{
    if b.len() == 0 {
        Set::empty()
    } else {
        proof { lemma_branch_elem_size(b, b.len() - 1); }
        assigned_in_branches(b.drop_last()).union(assigned_names(b.last().1@))
    }
}

/// The body of the first method named `initializer`, if any.
pub open spec fn initializer_body(methods: Seq<Stmt>) -> Option<Seq<Stmt>>
    decreases methods.len(),
{
    if methods.len() == 0 {
        None
    } else {
        match initializer_body(methods.drop_last()) {
            Some(b) => Some(b),
            None => match methods.last() {
                Stmt::FunctionDef { name, body, .. } => if name@ == "initializer"@ {
                    Some(body@)
                } else {
                    None
                },
                _ => None,
            },
        }
    }
}

/// The message for a field the initializer never assigns.
pub open spec fn unassigned_field(field: FieldDecl, class: Seq<char>) -> Seq<char> {
    "field "@ + backq(field.name@) + " of class "@ + backq(class)
        + " is never assigned in `initializer` (it would be `Nil` at runtime, not "@ + backq(field.type_ann.name@)
        + ")"@
}

/// The first field, in order, missing from `assigned`.
pub open spec fn first_unassigned(fields: Seq<FieldDecl>, assigned: Set<Seq<char>>, class: Seq<char>) -> Result<(), Fault>
    decreases fields.len(),
{
    if fields.len() == 0 {
        Ok(())
    } else {
        match first_unassigned(fields.drop_last(), assigned, class) {
            Err(f) => Err(f),
            Ok(_) => {
                let f = fields.last();
                if assigned.contains(f.name@) {
                    Ok(())
                } else {
                    Err((unassigned_field(f, class), f.line, f.column))
                }
            },
        }
    }
}

/// Every field of a class is assigned somewhere in its initializer.
pub open spec fn fields_assigned(class: Seq<char>, fields: Seq<FieldDecl>, methods: Seq<Stmt>) -> Result<(), Fault> {
    if fields.len() == 0 {
        Ok(())
    } else {
        let assigned = match initializer_body(methods) {
            Some(b) => assigned_names(b),
            None => Set::empty(),
        };
        first_unassigned(fields, assigned, class)
    }
}

/// The characters of an optional name.
pub open spec fn name_opt(o: Option<String>) -> Option<Seq<char>> {
    match o {
        Some(s) => Some(s@),
        None => None,
    }
}

/// The position of the first definition of class `name`.
pub open spec fn first_class_index(program: Seq<Stmt>, name: Seq<char>) -> Option<int>
    decreases program.len(),
{
    if program.len() == 0 {
        None
    } else {
        match first_class_index(program.drop_last(), name) {
            Some(i) => Some(i),
            None => match program.last() {
                Stmt::ClassDef { name: n, .. } => if n@ == name {
                    Some(program.len() - 1)
                } else {
                    None
                },
                _ => None,
            },
        }
    }
}

/// The field declarations a class with parent `parent` inherits, the
/// parent's first, then its parent's, each class read from its first
/// definition, for at most `fuel` generations beyond the parent.
pub open spec fn inherited_field_decls(program: Seq<Stmt>, parent: Option<Seq<char>>, fuel: nat) -> Seq<FieldDecl>
    decreases fuel,
{
    match parent {
        None => Seq::empty(),
        Some(p) => match first_class_index(program, p) {
            None => Seq::empty(),
            Some(i) => if 0 <= i < program.len() {
                match program[i] {
                    Stmt::ClassDef { parent: gp, fields, .. } => fields@ + if fuel == 0 {
                        Seq::empty()
                    } else {
                        inherited_field_decls(program, name_opt(gp), (fuel - 1) as nat)
                    },
                    _ => Seq::empty(),
                }
            } else {
                Seq::empty()
            },
        },
    }
}

/// Checking a list of fields one after another checks the first part, then
/// the second.
pub proof fn lemma_first_unassigned_concat(a: Seq<FieldDecl>, b: Seq<FieldDecl>, assigned: Set<Seq<char>>, class: Seq<char>)
    ensures
        first_unassigned(a + b, assigned, class) == match first_unassigned(a, assigned, class) {
            Err(f) => Err(f),
            Ok(_) => first_unassigned(b, assigned, class),
        },
    decreases b.len(),
{
    if b.len() == 0 {
        assert(a + b =~= a);
    } else {
        assert((a + b).drop_last() =~= a + b.drop_last());
        assert((a + b).last() == b.last());
        lemma_first_unassigned_concat(a, b.drop_last(), assigned, class);
    }
}

/// One method of a class: its fields and parameters in a scope of its own,
/// its body's value against its declared return type.
pub open spec fn method_check(st: TcState, class: Seq<char>, field_types: Map<Seq<char>, TypeModel>, m: Stmt) -> Result<TcState, Fault> {
    match m {
        Stmt::FunctionDef { name, params, return_type, body, line, column } => {
            let inner = TcState { scopes: st.scopes.push(field_types), ..st };
            match params_declared(inner, params@) {
                Err(f) => Err(f),
                Ok(st1) => match optional_resolves(st1, return_type) {
                    Err(f) => Err(f),
                    Ok(declared_return) => match body_return(st1, body@) {
                        Err(f) => Err(f),
                        Ok((st2, actual)) => match (declared_return, actual) {
                            (Some(d), Some(a)) => if d != a {
                                Err((return_mismatch("method "@ + backq(class + "#"@ + name@), d, a), line, column))
                            } else {
                                Ok(popped(st2))
                            },
                            _ => Ok(popped(st2)),
                        },
                    },
                },
            }
        },
        _ => Ok(st),
    }
}

/// A class's methods, in order.
pub open spec fn methods_check(st: TcState, class: Seq<char>, field_types: Map<Seq<char>, TypeModel>, methods: Seq<Stmt>) -> Result<TcState, Fault>
    decreases methods.len(),
{
    if methods.len() == 0 {
        Ok(st)
    } else {
        match methods_check(st, class, field_types, methods.drop_last()) {
            Err(f) => Err(f),
            Ok(st1) => method_check(st1, class, field_types, methods.last()),
        }
    }
}

/// Every class among `program` (a prefix of the whole program `all`): its
/// fields, its own and those it inherits, assigned in its initializer, then
/// each method body checked.
pub open spec fn classes_checked(st: TcState, all: Seq<Stmt>, program: Seq<Stmt>) -> Result<TcState, Fault>
    decreases program.len(),
{
    if program.len() == 0 {
        Ok(st)
    } else {
        match classes_checked(st, all, program.drop_last()) {
            Err(f) => Err(f),
            Ok(st1) => match program.last() {
                Stmt::ClassDef { name, parent, fields, methods, .. } => match fields_assigned(
                    name@,
                    fields@ + inherited_field_decls(all, name_opt(parent), all.len()),
                    methods@,
                ) {
                    Err(f) => Err(f),
                    Ok(_) => methods_check(st1, name@, st1.classes[name@].fields, methods@),
                },
                _ => Ok(st1),
            },
        }
    }
}

/// Every top-level function's signature registered; a later definition of
/// the same name wins.
pub open spec fn functions_collected(st: TcState, program: Seq<Stmt>) -> Result<TcState, Fault>
    decreases program.len(),
{
    if program.len() == 0 {
        Ok(st)
    } else {
        match functions_collected(st, program.drop_last()) {
            Err(f) => Err(f),
            Ok(st1) => match program.last() {
                Stmt::FunctionDef { name, .. } => match signature_of(st1, program.last()) {
                    Err(f) => Err(f),
                    Ok(sig) => Ok(TcState { functions: st1.functions.insert(name@, sig), ..st1 }),
                },
                _ => Ok(st1),
            },
        }
    }
}

/// The whole program: classes collected, function signatures collected,
/// class bodies checked, then every top-level statement in order.
pub open spec fn program_check(st: TcState, program: Seq<Stmt>) -> Result<TcState, Fault> {
    match classes_collected(st, program) {
        Err(f) => Err(f),
        Ok(st1) => match functions_collected(st1, program) {
            Err(f) => Err(f),
            Ok(st2) => match classes_checked(st2, program, program) {
                Err(f) => Err(f),
                Ok(st3) => block_check(st3, program),
            },
        },
    }
}

/// The parameter types of `params`, by the rules of `param_types`.
fn resolve_param_types(tc: &TypeChecker, params: &Vec<Param>) -> (r: Result<Vec<Type>, TypeError>)
    ensures
        match param_types(tc.state(), params@) {
            Ok(ts) => r matches Ok(v) && types_model(v@) == ts,
            Err(f) => r matches Err(e) && e.message@ == f.0 && e.line == f.1 && e.column == f.2,
        },
{
    let ghost st = tc.state();
    let mut out: Vec<Type> = Vec::new();
    let mut i: usize = 0;
    assert(types_model(out@) =~= Seq::<TypeModel>::empty());
    while i < params.len()
        invariant
            i <= params@.len(),
            st == tc.state(),
            param_types(st, params@.take(i as int)) == Ok::<Seq<TypeModel>, Fault>(types_model(out@)),
        decreases params@.len() - i,
    {
        let p = &params[i];
        proof {
            assert(params@.take(i + 1).drop_last() =~= params@.take(i as int));
            assert(params@.take(i + 1).last() == *p);
        }
        let t = match tc.resolve_type(p.type_ann.name.as_str(), p.line, p.column) {
            Ok(t) => t,
            Err(err) => {
                proof { lemma_param_types_prefix(st, params@, i + 1); }
                return Err(err);
            },
        };
        let ghost before = out@;
        out.push(t);
        assert(types_model(out@) =~= types_model(before).push(t@));
        i = i + 1;
    }
    assert(params@.take(i as int) =~= params@);
    Ok(out)
}

/// Once a prefix of the parameters fails to resolve, the whole list fails the same way.
pub proof fn lemma_param_types_prefix(st: TcState, params: Seq<Param>, k: int)
    requires
        0 <= k <= params.len(),
        param_types(st, params.take(k)) is Err,
    ensures
        param_types(st, params) == param_types(st, params.take(k)),
    decreases params.len() - k,
{
    if k < params.len() {
        assert(params.take(k + 1).drop_last() =~= params.take(k));
        lemma_param_types_prefix(st, params, k + 1);
    } else {
        assert(params.take(k) =~= params);
    }
}

/// A definition's signature, by the rules of `signature_of`.
fn signature(tc: &TypeChecker, def: &Stmt) -> (r: Result<FunctionSig, TypeError>)
    requires
        def is FunctionDef,
    ensures
        match signature_of(tc.state(), *def) {
            Ok(sig) => r matches Ok(s) && sig_model(s) == sig,
            Err(f) => r matches Err(e) && e.message@ == f.0 && e.line == f.1 && e.column == f.2,
        },
{
    let (params, return_type, line, column) = match def {
        Stmt::FunctionDef { params, return_type, line, column, .. } => (params, return_type, line, column),
        _ => {
            return Ok(FunctionSig { param_types: Vec::new(), return_type: None });
        },
    };
    let param_types = match resolve_param_types(tc, params) {
        Ok(v) => v,
        Err(err) => {
            return Err(err);
        },
    };
    let return_type = match return_type {
        None => None,
        Some(t) => match tc.resolve_type(t.name.as_str(), *line, *column) {
            Ok(r) => Some(r),
            Err(err) => {
                return Err(err);
            },
        },
    };
    Ok(FunctionSig { param_types, return_type })
}

/// The method signatures of a class, by the rules of `class_methods`.
fn method_signatures(tc: &TypeChecker, methods: &Vec<Stmt>) -> (r: Result<StrMap<FunctionSig>, TypeError>)
    requires
        forall|j: int| 0 <= j < methods@.len() ==> #[trigger] methods@[j] is FunctionDef,
    ensures
        match class_methods(tc.state(), methods@) {
            Ok(m) => r matches Ok(sm) && sm@.map_values(|s: FunctionSig| sig_model(s)) == m,
            Err(f) => r matches Err(e) && e.message@ == f.0 && e.line == f.1 && e.column == f.2,
        },
{
    let ghost st = tc.state();
    let mut out: StrMap<FunctionSig> = StrMap::new();
    let mut i: usize = 0;
    assert(out@.map_values(|s: FunctionSig| sig_model(s)) =~= Map::<Seq<char>, SigModel>::empty());
    while i < methods.len()
        invariant
            i <= methods@.len(),
            st == tc.state(),
            forall|j: int| 0 <= j < methods@.len() ==> #[trigger] methods@[j] is FunctionDef,
            class_methods(st, methods@.take(i as int)) == Ok::<Map<Seq<char>, SigModel>, Fault>(
                out@.map_values(|s: FunctionSig| sig_model(s)),
            ),
        decreases methods@.len() - i,
    {
        let m = &methods[i];
        proof {
            assert(methods@.take(i + 1).drop_last() =~= methods@.take(i as int));
            assert(methods@.take(i + 1).last() == *m);
        }
        assert(m is FunctionDef);
        let sig = match signature(tc, m) {
            Ok(s) => s,
            Err(err) => {
                proof { lemma_class_methods_prefix(st, methods@, i + 1); }
                return Err(err);
            },
        };
        let name = match m {
            Stmt::FunctionDef { name, .. } => name.clone(),
            _ => String::new(),
        };
        let ghost before = out@;
        let ghost sm = sig_model(sig);
        out.insert(name, sig);
        assert(out@.map_values(|s: FunctionSig| sig_model(s)) =~= before.map_values(|s: FunctionSig| sig_model(s)).insert(
            m->FunctionDef_name@,
            sm,
        ));
        i = i + 1;
    }
    assert(methods@.take(i as int) =~= methods@);
    Ok(out)
}

/// Once a prefix of the methods fails, the whole list fails the same way.
pub proof fn lemma_class_methods_prefix(st: TcState, methods: Seq<Stmt>, k: int)
    requires
        0 <= k <= methods.len(),
        class_methods(st, methods.take(k)) is Err,
    ensures
        class_methods(st, methods) == class_methods(st, methods.take(k)),
    decreases methods.len() - k,
{
    if k < methods.len() {
        assert(methods.take(k + 1).drop_last() =~= methods.take(k));
        lemma_class_methods_prefix(st, methods, k + 1);
    } else {
        assert(methods.take(k) =~= methods);
    }
}

/// Once a prefix of the constants fails, the constants with no fields fail the same way.
pub proof fn lemma_class_consts_prefix(st: TcState, consts: Seq<Stmt>, k: int)
    requires
        0 <= k <= consts.len(),
        class_fields(st, consts.take(k), Seq::empty()) is Err,
    ensures
        class_fields(st, consts, Seq::empty()) == class_fields(st, consts.take(k), Seq::empty()),
    decreases consts.len() - k,
{
    if k < consts.len() {
        assert(consts.take(k + 1).drop_last() =~= consts.take(k));
        lemma_class_consts_prefix(st, consts, k + 1);
    } else {
        assert(consts.take(k) =~= consts);
    }
}

/// A failing constant fails the whole class, whatever its fields.
pub proof fn lemma_class_fields_const_error(st: TcState, consts: Seq<Stmt>, fields: Seq<FieldDecl>)
    requires
        class_fields(st, consts, Seq::empty()) is Err,
    ensures
        class_fields(st, consts, fields) == class_fields(st, consts, Seq::empty()),
    decreases fields.len(),
{
    if fields.len() > 0 {
        lemma_class_fields_const_error(st, consts, fields.drop_last());
    } else {
        assert(fields =~= Seq::<FieldDecl>::empty());
    }
}

/// Once a prefix of the fields fails, all of them fail the same way.
pub proof fn lemma_class_fields_prefix(st: TcState, consts: Seq<Stmt>, fields: Seq<FieldDecl>, k: int)
    requires
        0 <= k <= fields.len(),
        class_fields(st, consts, fields.take(k)) is Err,
    ensures
        class_fields(st, consts, fields) == class_fields(st, consts, fields.take(k)),
    decreases fields.len() - k,
{
    if k < fields.len() {
        assert(fields.take(k + 1).drop_last() =~= fields.take(k));
        lemma_class_fields_prefix(st, consts, fields, k + 1);
    } else {
        assert(fields.take(k) =~= fields);
    }
}

/// The field and constant types of a class, by the rules of `class_fields`.
fn field_types_of(tc: &TypeChecker, consts: &Vec<Stmt>, fields: &Vec<FieldDecl>) -> (r: Result<StrMap<Type>, TypeError>)
    ensures
        match class_fields(tc.state(), consts@, fields@) {
            Ok(m) => r matches Ok(fm) && scope_types(fm@) == m,
            Err(f) => r matches Err(e) && e.message@ == f.0 && e.line == f.1 && e.column == f.2,
        },
{
    let ghost st = tc.state();
    let mut out: StrMap<Type> = StrMap::new();
    let mut i: usize = 0;
    assert(scope_types(out@) =~= Map::<Seq<char>, TypeModel>::empty());
    assert(consts@.take(0).len() == 0);
    while i < consts.len()
        invariant
            i <= consts@.len(),
            st == tc.state(),
            class_fields(st, consts@.take(i as int), Seq::empty()) == Ok::<Map<Seq<char>, TypeModel>, Fault>(
                scope_types(out@),
            ),
        decreases consts@.len() - i,
    {
        let c = &consts[i];
        proof {
            assert(consts@.take(i + 1).drop_last() =~= consts@.take(i as int));
            assert(consts@.take(i + 1).last() == *c);
        }
        match c {
            Stmt::ConstDecl { name, type_ann, line, column, .. } => match type_ann {
                None => {
                    proof {
                        lemma_class_consts_prefix(st, consts@, i + 1);
                        lemma_class_fields_const_error(st, consts@, fields@);
                    }
                    return Err(fault("class constants require an explicit type annotation".to_owned(), *line, *column));
                },
                Some(ann) => {
                    let t = match tc.resolve_type(ann.name.as_str(), ann.line, ann.column) {
                        Ok(t) => t,
                        Err(err) => {
                            proof {
                                lemma_class_consts_prefix(st, consts@, i + 1);
                                lemma_class_fields_const_error(st, consts@, fields@);
                            }
                            return Err(err);
                        },
                    };
                    let ghost before = out@;
                    let ghost tm = t@;
                    out.insert(name.clone(), t);
                    assert(scope_types(out@) =~= scope_types(before).insert(name@, tm));
                },
            },
            _ => {},
        }
        i = i + 1;
    }
    assert(consts@.take(i as int) =~= consts@);
    let mut j: usize = 0;
    assert(fields@.take(0) =~= Seq::<FieldDecl>::empty());
    while j < fields.len()
        invariant
            j <= fields@.len(),
            st == tc.state(),
            class_fields(st, consts@, fields@.take(j as int)) == Ok::<Map<Seq<char>, TypeModel>, Fault>(
                scope_types(out@),
            ),
        decreases fields@.len() - j,
    {
        let f = &fields[j];
        proof {
            assert(fields@.take(j + 1).drop_last() =~= fields@.take(j as int));
            assert(fields@.take(j + 1).last() == *f);
        }
        let t = match tc.resolve_type(f.type_ann.name.as_str(), f.line, f.column) {
            Ok(t) => t,
            Err(err) => {
                proof { lemma_class_fields_prefix(st, consts@, fields@, j + 1); }
                return Err(err);
            },
        };
        let ghost before = out@;
        let ghost tm = t@;
        out.insert(f.name.clone(), t);
        assert(scope_types(out@) =~= scope_types(before).insert(f.name@, tm));
        j = j + 1;
    }
    assert(fields@.take(j as int) =~= fields@);
    Ok(out)
}

/// The bindings of a list of name-type entries, inserted in order.
pub open spec fn entries_map(es: Seq<(String, Type)>) -> Map<Seq<char>, TypeModel>
    decreases es.len(),
{
    if es.len() == 0 {
        Map::empty()
    } else {
        entries_map(es.drop_last()).insert(es.last().0@, es.last().1@)
    }
}

/// A copy of a field table's entries, in entry order.
fn copy_entries(fields: &StrMap<Type>) -> (r: Vec<(String, Type)>)
    ensures
        entries_map(r@) == scope_types(fields@),
{
    proof { use_type_invariant(fields); }
    let n = fields.len();
    let mut out: Vec<(String, Type)> = Vec::new();
    let mut i: usize = 0;
    proof { fields.lemma_prefix_view_step(0); }
    assert(entries_map(out@) =~= scope_types(fields.prefix_view(0)));
    while i < n
        invariant
            i <= n,
            n == fields.size(),
            out@.len() == i,
            entries_map(out@) == scope_types(fields.prefix_view(i as int)),
        decreases n - i,
    {
        let k = fields.key_at(i).clone();
        let t = fields.value_at(i).duplicate();
        let ghost before = out@;
        let ghost kv = k@;
        let ghost tv = t@;
        proof { fields.lemma_prefix_view_step(i as int); }
        out.push((k, t));
        assert(out@.drop_last() =~= before);
        assert(entries_map(out@) =~= scope_types(fields.prefix_view(i + 1)));
        i = i + 1;
    }
    proof { fields.lemma_prefix_view_full(); }
    out
}

/// Once a prefix of the program's classes fails, the whole pass fails the same way.
pub proof fn lemma_classes_described_prefix(st: TcState, program: Seq<Stmt>, k: int)
    requires
        0 <= k <= program.len(),
        classes_described(st, program.take(k)) is Err,
    ensures
        classes_described(st, program) == classes_described(st, program.take(k)),
    decreases program.len() - k,
{
    if k < program.len() {
        assert(program.take(k + 1).drop_last() =~= program.take(k));
        lemma_classes_described_prefix(st, program, k + 1);
    } else {
        assert(program.take(k) =~= program);
    }
}

/// Once a prefix of the program's functions fails, the whole pass fails the same way.
pub proof fn lemma_functions_collected_prefix(st: TcState, program: Seq<Stmt>, k: int)
    requires
        0 <= k <= program.len(),
        functions_collected(st, program.take(k)) is Err,
    ensures
        functions_collected(st, program) == functions_collected(st, program.take(k)),
    decreases program.len() - k,
{
    if k < program.len() {
        assert(program.take(k + 1).drop_last() =~= program.take(k));
        lemma_functions_collected_prefix(st, program, k + 1);
    } else {
        assert(program.take(k) =~= program);
    }
}

/// Once a prefix of the program's classes fails checking, the whole pass fails the same way.
pub proof fn lemma_classes_checked_prefix(st: TcState, all: Seq<Stmt>, program: Seq<Stmt>, k: int)
    requires
        0 <= k <= program.len(),
        classes_checked(st, all, program.take(k)) is Err,
    ensures
        classes_checked(st, all, program) == classes_checked(st, all, program.take(k)),
    decreases program.len() - k,
{
    if k < program.len() {
        assert(program.take(k + 1).drop_last() =~= program.take(k));
        lemma_classes_checked_prefix(st, all, program, k + 1);
    } else {
        assert(program.take(k) =~= program);
    }
}

/// Once a prefix of a class's methods fails, all of them fail the same way.
pub proof fn lemma_methods_check_prefix(st: TcState, class: Seq<char>, fm: Map<Seq<char>, TypeModel>, methods: Seq<Stmt>, k: int)
    requires
        0 <= k <= methods.len(),
        methods_check(st, class, fm, methods.take(k)) is Err,
    ensures
        methods_check(st, class, fm, methods) == methods_check(st, class, fm, methods.take(k)),
    decreases methods.len() - k,
{
    if k < methods.len() {
        assert(methods.take(k + 1).drop_last() =~= methods.take(k));
        lemma_methods_check_prefix(st, class, fm, methods, k + 1);
    } else {
        assert(methods.take(k) =~= methods);
    }
}

/// The first definition found within a prefix is the first of the whole program.
pub proof fn lemma_first_class_index_prefix(program: Seq<Stmt>, name: Seq<char>, k: int)
    requires
        0 <= k <= program.len(),
        first_class_index(program.take(k), name) is Some,
    ensures
        first_class_index(program, name) == first_class_index(program.take(k), name),
    decreases program.len() - k,
{
    if k < program.len() {
        assert(program.take(k + 1).drop_last() =~= program.take(k));
        lemma_first_class_index_prefix(program, name, k + 1);
    } else {
        assert(program.take(k) =~= program);
    }
}

/// Once a prefix of the fields is found unassigned, the whole list is.
pub proof fn lemma_first_unassigned_prefix(fields: Seq<FieldDecl>, assigned: Set<Seq<char>>, class: Seq<char>, k: int)
    requires
        0 <= k <= fields.len(),
        first_unassigned(fields.take(k), assigned, class) is Err,
    ensures
        first_unassigned(fields, assigned, class) == first_unassigned(fields.take(k), assigned, class),
    decreases fields.len() - k,
{
    if k < fields.len() {
        assert(fields.take(k + 1).drop_last() =~= fields.take(k));
        lemma_first_unassigned_prefix(fields, assigned, class, k + 1);
    } else {
        assert(fields.take(k) =~= fields);
    }
}

/// A prefix's initializer is the whole list's.
pub proof fn lemma_initializer_prefix(methods: Seq<Stmt>, k: int)
    requires
        0 <= k <= methods.len(),
        initializer_body(methods.take(k)) is Some,
    ensures
        initializer_body(methods) == initializer_body(methods.take(k)),
    decreases methods.len() - k,
{
    if k < methods.len() {
        assert(methods.take(k + 1).drop_last() =~= methods.take(k));
        lemma_initializer_prefix(methods, k + 1);
    } else {
        assert(methods.take(k) =~= methods);
    }
}

/// Adds to `assigned` every name `body` assigns, by the rules of `assigned_names`.
fn collect_assigned_names(body: &Vec<Stmt>, assigned: &mut StrMap<bool>)
    ensures
        final(assigned)@.dom() == old(assigned)@.dom().union(assigned_names(body@)),
    decreases stmts_size(body@), 1nat,
{
    let ghost d0 = assigned@.dom();
    let mut i: usize = 0;
    assert(body@.take(0).len() == 0);
    assert(d0.union(assigned_names(body@.take(0))) =~= d0);
    while i < body.len()
        invariant
            i <= body@.len(),
            d0 == old(assigned)@.dom(),
            assigned@.dom() == d0.union(assigned_names(body@.take(i as int))),
        decreases body@.len() - i,
    {
        proof {
            lemma_stmt_elem_size(body@, i as int);
            assert(body@.take(i + 1).drop_last() =~= body@.take(i as int));
            assert(body@.take(i + 1).last() == body@[i as int]);
        }
        let ghost before = assigned@.dom();
        match &body[i] {
            Stmt::VarDecl { name, .. } => {
                assigned.insert(name.clone(), true);
                assert(assigned@.dom() =~= before.union(set![name@]));
                assert(assigned@.dom() =~= before.union(assigned_in(body@[i as int])));
            },
            Stmt::FieldAssign { field, .. } => {
                assigned.insert(field.clone(), true);
                assert(assigned@.dom() =~= before.union(set![field@]));
                assert(assigned@.dom() =~= before.union(assigned_in(body@[i as int])));
            },
            Stmt::If { then_body, elsif_branches, else_body, .. } => {
                collect_assigned_names(then_body, assigned);
                let mut j: usize = 0;
                assert(elsif_branches@.take(0).len() == 0);
                assert(assigned@.dom().union(assigned_in_branches(elsif_branches@.take(0))) =~= assigned@.dom());
                let ghost mid = assigned@.dom();
                while j < elsif_branches.len()
                    invariant
                        j <= elsif_branches@.len(),
                        branches_size(elsif_branches@) < stmts_size(body@),
                        assigned@.dom() == mid.union(assigned_in_branches(elsif_branches@.take(j as int))),
                    decreases elsif_branches@.len() - j,
                {
                    proof {
                        lemma_branch_elem_size(elsif_branches@, j as int);
                        assert(elsif_branches@.take(j + 1).drop_last() =~= elsif_branches@.take(j as int));
                        assert(elsif_branches@.take(j + 1).last() == elsif_branches@[j as int]);
                    }
                    let ghost b0 = assigned@.dom();
                    collect_assigned_names(&elsif_branches[j].1, assigned);
                    assert(assigned@.dom() =~= mid.union(assigned_in_branches(elsif_branches@.take(j + 1))));
                    j = j + 1;
                }
                assert(elsif_branches@.take(j as int) =~= elsif_branches@);
                match else_body {
                    Some(b) => {
                        collect_assigned_names(b, assigned);
                    },
                    None => {},
                }
                assert(assigned@.dom() =~= before.union(assigned_in(body@[i as int])));
            },
            Stmt::While { body: inner, .. } => {
                collect_assigned_names(inner, assigned);
                assert(assigned@.dom() =~= before.union(assigned_in(body@[i as int])));
            },
            Stmt::For { body: inner, .. } => {
                collect_assigned_names(inner, assigned);
                assert(assigned@.dom() =~= before.union(assigned_in(body@[i as int])));
            },
            _ => {
                assert(assigned@.dom() =~= before.union(assigned_in(body@[i as int])));
            },
        }
        assert(assigned_names(body@.take(i + 1)) == assigned_names(body@.take(i as int)).union(assigned_in(body@[i as int])));
        assert(assigned@.dom() =~= d0.union(assigned_names(body@.take(i + 1))));
        i = i + 1;
    }
    assert(body@.take(i as int) =~= body@);
}

/// Every class the program defines has an entry in `classes`.
pub open spec fn class_names_known(classes: Map<Seq<char>, ClassModel>, program: Seq<Stmt>) -> bool {
    forall|i: int| 0 <= i < program.len() && #[trigger] program[i] is ClassDef ==> classes.contains_key(
        program[i]->ClassDef_name@,
    )
}

/// Registration keeps every class and adds every name the program defines.
pub proof fn lemma_registered_names(classes: Map<Seq<char>, ClassModel>, program: Seq<Stmt>)
    ensures
        class_names_known(class_names_registered(classes, program), program),
        classes.dom().subset_of(class_names_registered(classes, program).dom()),
    decreases program.len(),
{
    if program.len() > 0 {
        lemma_registered_names(classes, program.drop_last());
        let before = class_names_registered(classes, program.drop_last());
        let after = class_names_registered(classes, program);
        assert(before.dom().subset_of(after.dom()));
        assert forall|i: int| 0 <= i < program.len() && #[trigger] program[i] is ClassDef implies after.contains_key(
            program[i]->ClassDef_name@,
        ) by {
            if i < program.len() - 1 {
                assert(program.drop_last()[i] == program[i]);
            }
        }
    }
}

/// Describing the classes keeps every class name.
pub proof fn lemma_described_keeps_names(st: TcState, program: Seq<Stmt>)
    ensures
        classes_described(st, program) matches Ok(st1) ==> st.classes.dom().subset_of(st1.classes.dom())
            && st1.scopes == st.scopes && st1.functions == st.functions,
    decreases program.len(),
{
    if program.len() > 0 {
        lemma_described_keeps_names(st, program.drop_last());
    }
}

/// Collecting function signatures leaves the classes and scopes as they were.
pub proof fn lemma_functions_keep_classes(st: TcState, program: Seq<Stmt>)
    ensures
        functions_collected(st, program) matches Ok(st1) ==> st1.classes == st.classes && st1.scopes == st.scopes,
    decreases program.len(),
{
    if program.len() > 0 {
        lemma_functions_keep_classes(st, program.drop_last());
    }
}

impl TypeChecker {
    /// Every field of the class, its own and those it inherits, assigned
    /// somewhere in its initializer, by the rules of `fields_assigned`.
    fn check_fields_assigned_in_initializer(
        &self,
        program: &[Stmt],
        class_name: &str,
        parent: &Option<String>,
        fields: &Vec<FieldDecl>,
        methods: &Vec<Stmt>,
    ) -> (r: Result<(), TypeError>)
        ensures
            agrees_unit(
                r,
                fields_assigned(class_name@, fields@ + inherited_field_decls(program@, name_opt(*parent), program@.len()), methods@),
            ),
    {
        let ghost all = fields@ + inherited_field_decls(program@, name_opt(*parent), program@.len());
        let mut initializer: Option<&Vec<Stmt>> = None;
        let mut j: usize = 0;
        assert(methods@.take(0).len() == 0);
        while j < methods.len() && initializer.is_none()
            invariant
                j <= methods@.len(),
                initializer is None ==> initializer_body(methods@.take(j as int)) is None,
                initializer matches Some(b) ==> initializer_body(methods@) == Some(b@),
            decreases methods@.len() - j,
        {
            proof {
                assert(methods@.take(j + 1).drop_last() =~= methods@.take(j as int));
                assert(methods@.take(j + 1).last() == methods@[j as int]);
            }
            match &methods[j] {
                Stmt::FunctionDef { name, body, .. } => {
                    if str_eq(name.as_str(), "initializer") {
                        proof { lemma_initializer_prefix(methods@, j + 1); }
                        initializer = Some(body);
                    }
                },
                _ => {},
            }
            j = j + 1;
        }
        proof {
            if initializer is None {
                assert(methods@.take(j as int) =~= methods@);
            }
        }
        let mut assigned: StrMap<bool> = StrMap::new();
        match initializer {
            Some(body) => collect_assigned_names(body, &mut assigned),
            None => {},
        }
        let ghost names = match initializer_body(methods@) {
            Some(b) => assigned_names(b),
            None => Set::empty(),
        };
        assert(assigned@.dom() =~= names);
        assert(fields_assigned(class_name@, all, methods@) == first_unassigned(all, names, class_name@));
        proof {
            lemma_first_unassigned_concat(
                fields@,
                inherited_field_decls(program@, name_opt(*parent), program@.len()),
                names,
                class_name@,
            );
        }
        match check_field_list(class_name, fields, &assigned) {
            Ok(_) => {},
            Err(err) => {
                return Err(err);
            },
        }
        let fuel = program.len();
        let mut cur: Option<&String> = match parent {
            Some(p) => Some(p),
            None => None,
        };
        let mut level: usize = 0;
        loop
            invariant
                level <= fuel,
                fuel == program@.len(),
                assigned@.dom() == names,
                all == fields@ + inherited_field_decls(program@, name_opt(*parent), program@.len()),
                fields_assigned(class_name@, all, methods@) == first_unassigned(
                    inherited_field_decls(program@, match cur { Some(p) => Some(p@), None => None }, (fuel - level) as nat),
                    names,
                    class_name@,
                ),
            decreases fuel - level,
        {
            let p = match cur {
                None => {
                    assert(inherited_field_decls(program@, None, (fuel - level) as nat) =~= Seq::<FieldDecl>::empty());
                    return Ok(());
                },
                Some(p) => p,
            };
            let idx = match first_class_def(program, p.as_str()) {
                None => {
                    assert(inherited_field_decls(program@, Some(p@), (fuel - level) as nat) =~= Seq::<FieldDecl>::empty());
                    return Ok(());
                },
                Some(i) => i,
            };
            match &program[idx] {
                Stmt::ClassDef { parent: gp, fields: pf, .. } => {
                    proof {
                        let f = (fuel - level) as nat;
                        let rest = if f == 0 {
                            Seq::empty()
                        } else {
                            inherited_field_decls(program@, name_opt(*gp), (f - 1) as nat)
                        };
                        assert(inherited_field_decls(program@, Some(p@), f) == pf@ + rest);
                        lemma_first_unassigned_concat(pf@, rest, names, class_name@);
                    }
                    match check_field_list(class_name, pf, &assigned) {
                        Ok(_) => {},
                        Err(err) => {
                            return Err(err);
                        },
                    }
                    if level == fuel {
                        return Ok(());
                    }
                    cur = match gp {
                        Some(g) => Some(g),
                        None => None,
                    };
                    level = level + 1;
                },
                _ => {
                    return Ok(());
                },
            }
        }
    }

    /// Both passes over the classes, by the rules of `classes_collected`.
    fn collect_classes(&mut self, program: &[Stmt]) -> (r: Result<(), TypeError>)
        requires
            class_shapes_ok(program@),
        ensures
            agrees_state(r, classes_collected(old(self).state(), program@), final(self).state()),
            final(self).scopes() == old(self).scopes(),
    {
        let ghost st0 = self.state();
        let mut i: usize = 0;
        assert(program@.take(0).len() == 0);
        while i < program.len()
            invariant
                i <= program@.len(),
                st0 == old(self).state(),
                self.scopes() == old(self).scopes(),
                self.state() == (TcState { classes: class_names_registered(st0.classes, program@.take(i as int)), ..st0 }),
            decreases program@.len() - i,
        {
            proof {
                assert(program@.take(i + 1).drop_last() =~= program@.take(i as int));
                assert(program@.take(i + 1).last() == program@[i as int]);
            }
            match &program[i] {
                Stmt::ClassDef { name, .. } => {
                    if !self.classes.contains_key(name.as_str()) {
                        let info = ClassInfo { fields: StrMap::new(), methods: StrMap::new() };
                        assert(scope_types(info.fields@) =~= Map::<Seq<char>, TypeModel>::empty());
                        assert(info.methods@.map_values(|s: FunctionSig| sig_model(s)) =~= Map::<Seq<char>, SigModel>::empty());
                        let ghost before = self.classes@;
                        self.classes.insert(name.clone(), info);
                        assert(self.classes@.map_values(|c: ClassInfo| class_model(c)) =~= before.map_values(
                            |c: ClassInfo| class_model(c),
                        ).insert(name@, empty_class()));
                    }
                },
                _ => {},
            }
            i = i + 1;
        }
        assert(program@.take(i as int) =~= program@);
        let ghost st1 = self.state();
        let mut i: usize = 0;
        assert(program@.take(0).len() == 0);
        while i < program.len()
            invariant
                i <= program@.len(),
                class_shapes_ok(program@),
                self.scopes() == old(self).scopes(),
                classes_described(st1, program@.take(i as int)) == Ok::<TcState, Fault>(self.state()),
                st1 == (TcState { classes: class_names_registered(old(self).state().classes, program@), ..old(self).state() }),
            decreases program@.len() - i,
        {
            proof {
                assert(program@.take(i + 1).drop_last() =~= program@.take(i as int));
                assert(program@.take(i + 1).last() == program@[i as int]);
                assert(class_shape_ok(program@[i as int]));
            }
            match &program[i] {
                Stmt::ClassDef { name, consts, fields, methods, .. } => {
                    let fm = match field_types_of(self, consts, fields) {
                        Ok(m) => m,
                        Err(err) => {
                            proof { lemma_classes_described_prefix(st1, program@, i + 1); }
                            return Err(err);
                        },
                    };
                    let mm = match method_signatures(self, methods) {
                        Ok(m) => m,
                        Err(err) => {
                            proof { lemma_classes_described_prefix(st1, program@, i + 1); }
                            return Err(err);
                        },
                    };
                    let info = ClassInfo { fields: fm, methods: mm };
                    let ghost cm = class_model(info);
                    let ghost before = self.classes@;
                    self.classes.insert(name.clone(), info);
                    assert(self.classes@.map_values(|c: ClassInfo| class_model(c)) =~= before.map_values(
                        |c: ClassInfo| class_model(c),
                    ).insert(name@, cm));
                },
                _ => {},
            }
            i = i + 1;
        }
        assert(program@.take(i as int) =~= program@);
        let ghost st2 = self.state();
        let parents = class_parent_table(program);
        assert(classes_view(self.classes@) == st2.classes);
        match check_parents_known(&self.classes, &parents, program) {
            Ok(_) => {},
            Err(err) => {
                return Err(err);
            },
        }
        match check_no_cycles(&parents, program) {
            Ok(_) => {},
            Err(err) => {
                return Err(err);
            },
        }
        let flat = flatten_inheritance(&self.classes, &parents, program.len());
        self.classes = flat;
        assert(self.state() == (TcState { classes: inherited(st2.classes, class_parents(program@), program@.len()), ..st2 }));
        Ok(())
    }

    /// Every top-level function's signature, by the rules of `functions_collected`.
    fn collect_function_signatures(&mut self, program: &[Stmt]) -> (r: Result<(), TypeError>)
        ensures
            agrees_state(r, functions_collected(old(self).state(), program@), final(self).state()),
            final(self).scopes() == old(self).scopes(),
    {
        let ghost st0 = self.state();
        let mut i: usize = 0;
        assert(program@.take(0).len() == 0);
        while i < program.len()
            invariant
                i <= program@.len(),
                st0 == old(self).state(),
                self.scopes() == old(self).scopes(),
                functions_collected(st0, program@.take(i as int)) == Ok::<TcState, Fault>(self.state()),
            decreases program@.len() - i,
        {
            proof {
                assert(program@.take(i + 1).drop_last() =~= program@.take(i as int));
                assert(program@.take(i + 1).last() == program@[i as int]);
            }
            let def = &program[i];
            match def {
                Stmt::FunctionDef { name, .. } => {
                    let sig = match signature(self, def) {
                        Ok(s) => s,
                        Err(err) => {
                            proof { lemma_functions_collected_prefix(st0, program@, i + 1); }
                            return Err(err);
                        },
                    };
                    let ghost sm = sig_model(sig);
                    let ghost before = self.functions@;
                    self.functions.insert(name.clone(), sig);
                    assert(self.functions@.map_values(|s: FunctionSig| sig_model(s)) =~= before.map_values(
                        |s: FunctionSig| sig_model(s),
                    ).insert(name@, sm));
                },
                _ => {},
            }
            i = i + 1;
        }
        assert(program@.take(i as int) =~= program@);
        Ok(())
    }

    /// One method of a class, by the rules of `method_check`: the class's
    /// fields and the parameters in a scope of their own.
    fn check_method(&mut self, class_name: &str, entries: &Vec<(String, Type)>, m: &Stmt) -> (r: Result<(), TypeError>)
        requires
            m is FunctionDef,
            old(self).scopes().len() > 0,
        ensures
            final(self).state().classes == old(self).state().classes,
            final(self).state().functions == old(self).state().functions,
            agrees_state(r, method_check(old(self).state(), class_name@, entries_map(entries@), *m), final(self).state()),
            r is Ok ==> final(self).scopes().len() == old(self).scopes().len(),
    {
        let (name, params, return_type, body, line, column) = match m {
            Stmt::FunctionDef { name, params, return_type, body, line, column } => (
                name,
                params,
                return_type,
                body,
                line,
                column,
            ),
            _ => {
                return Ok(());
            },
        };
        let ghost st0 = self.state();
        self.push_scope();
        let mut i: usize = 0;
        assert(entries@.take(0).len() == 0);
        assert(st0.scopes.push(entries_map(entries@.take(0))) =~= st0.scopes.push(Map::empty()));
        while i < entries.len()
            invariant
                self.state().classes == old(self).state().classes,
                self.state().functions == old(self).state().functions,
                i <= entries@.len(),
                st0 == old(self).state(),
                self.state() == (TcState { scopes: st0.scopes.push(entries_map(entries@.take(i as int))), ..st0 }),
            decreases entries@.len() - i,
        {
            let entry = &entries[i];
            proof {
                assert(entries@.take(i + 1).drop_last() =~= entries@.take(i as int));
                assert(entries@.take(i + 1).last() == *entry);
            }
            let t = entry.1.duplicate();
            self.declare_var(entry.0.as_str(), t);
            assert(self.state().scopes =~= st0.scopes.push(entries_map(entries@.take(i + 1))));
            i = i + 1;
        }
        assert(entries@.take(i as int) =~= entries@);
        match self.declare_params(params) {
            Ok(_) => {},
            Err(err) => {
                return Err(err);
            },
        }
        let declared_return = match self.resolve_optional(return_type) {
            Ok(t) => t,
            Err(err) => {
                return Err(err);
            },
        };
        let actual = match self.check_body_return_type(body) {
            Ok(t) => t,
            Err(err) => {
                return Err(err);
            },
        };
        match (&declared_return, &actual) {
            (Some(d), Some(a)) => {
                if !d.same_as(a) {
                    self.pop_scope();
                    let mut what = class_name.to_owned();
                    push_str(&mut what, "#");
                    push_str(&mut what, name.as_str());
                    let mut message = "method ".to_owned();
                    let w = backquoted(what.as_str());
                    push_str(&mut message, w.as_str());
                    push_str(&mut message, " declared to return ");
                    let dq = quoted_type(d);
                    push_str(&mut message, dq.as_str());
                    push_str(&mut message, ", but returns ");
                    let aq = quoted_type(a);
                    push_str(&mut message, aq.as_str());
                    assert(what@ =~= class_name@ + "#"@ + name@);
                    assert(message@ =~= return_mismatch("method "@ + backq(class_name@ + "#"@ + name@), d@, a@));
                    return Err(fault(message, *line, *column));
                }
            },
            _ => {},
        }
        self.pop_scope();
        Ok(())
    }

    /// Every class's fields assigned and methods checked, by the rules of `classes_checked`.
    fn check_classes(&mut self, program: &[Stmt]) -> (r: Result<(), TypeError>)
        requires
            old(self).scopes().len() > 0,
            class_shapes_ok(program@),
            class_names_known(old(self).state().classes, program@),
        ensures
            agrees_state(r, classes_checked(old(self).state(), program@, program@), final(self).state()),
            r is Ok ==> final(self).scopes().len() == old(self).scopes().len(),
    {
        let ghost st0 = self.state();
        let ghost n0 = self.scopes().len();
        let mut i: usize = 0;
        assert(program@.take(0).len() == 0);
        while i < program.len()
            invariant
                i <= program@.len(),
                st0 == old(self).state(),
                self.scopes().len() == n0,
                n0 > 0,
                class_shapes_ok(program@),
                class_names_known(self.state().classes, program@),
                self.state().classes == st0.classes,
                classes_checked(st0, program@, program@.take(i as int)) == Ok::<TcState, Fault>(self.state()),
            decreases program@.len() - i,
        {
            proof {
                assert(program@.take(i + 1).drop_last() =~= program@.take(i as int));
                assert(program@.take(i + 1).last() == program@[i as int]);
                assert(class_shape_ok(program@[i as int]));
            }
            match &program[i] {
                Stmt::ClassDef { name, parent, consts, fields, methods, line, column } => {
                    match self.check_fields_assigned_in_initializer(program, name.as_str(), parent, fields, methods) {
                        Ok(_) => {},
                        Err(err) => {
                            proof { lemma_classes_checked_prefix(st0, program@, program@, i + 1); }
                            return Err(err);
                        },
                    }
                    let ghost st1 = self.state();
                    let entries = match self.classes.get(name.as_str()) {
                        Some(info) => {
                            assert(st1.classes[name@] == class_model(*info));
                            copy_entries(&info.fields)
                        },
                        None => Vec::new(),
                    };
                    proof {
                        assert(program@[i as int] is ClassDef);
                        assert(st1.classes.contains_key(name@));
                    }
                    let ghost fm = entries_map(entries@);
                    assert(fm == st1.classes[name@].fields);
                    assert(fields_assigned(name@, fields@ + inherited_field_decls(program@, name_opt(*parent), program@.len()), methods@) is Ok);
                    let mut j: usize = 0;
                    assert(methods@.take(0).len() == 0);
                    while j < methods.len()
                        invariant
                            j <= methods@.len(),
                            self.scopes().len() == n0,
                            n0 > 0,
                            fm == entries_map(entries@),
                            forall|k: int| 0 <= k < methods@.len() ==> #[trigger] methods@[k] is FunctionDef,
                            self.state().classes == st0.classes,
                            st1.classes.contains_key(name@),
                            st0 == old(self).state(),
                            fm == st1.classes[name@].fields,
                            fields_assigned(name@, fields@ + inherited_field_decls(program@, name_opt(*parent), program@.len()), methods@) is Ok,
                            program@.take(i + 1).last() == program@[i as int],
                            program@.take(i + 1).drop_last() == program@.take(i as int),
                            program@[i as int] == (Stmt::ClassDef { name: *name, parent: *parent, consts: *consts, fields: *fields, methods: *methods, line: *line, column: *column }),
                            classes_checked(st0, program@, program@.take(i as int)) == Ok::<TcState, Fault>(st1),
                            i < program@.len(),
                            methods_check(st1, name@, fm, methods@.take(j as int)) == Ok::<TcState, Fault>(self.state()),
                        decreases methods@.len() - j,
                    {
                        proof {
                            assert(methods@.take(j + 1).drop_last() =~= methods@.take(j as int));
                            assert(methods@.take(j + 1).last() == methods@[j as int]);
                        }
                        match self.check_method(name.as_str(), &entries, &methods[j]) {
                            Ok(_) => {},
                            Err(err) => {
                                proof {
                                    lemma_methods_check_prefix(st1, name@, fm, methods@, j + 1);
                                    assert(classes_checked(st0, program@, program@.take(i + 1)) == methods_check(st1, name@, fm, methods@));
                                    lemma_classes_checked_prefix(st0, program@, program@, i + 1);
                                }
                                return Err(err);
                            },
                        }
                        j = j + 1;
                    }
                    assert(methods@.take(j as int) =~= methods@);
                },
                _ => {},
            }
            i = i + 1;
        }
        assert(program@.take(i as int) =~= program@);
        Ok(())
    }
}

impl TypeChecker {
    /// Checks a whole program: every class's fields and method signatures
    /// first, then every top-level function's signature, so nothing has to
    /// be declared before it is used; then the class bodies, then the
    /// top-level statements in order. The result is the first error, by the
    /// rules of `program_check`.
    pub fn check_program(&mut self, program: &[Stmt]) -> (r: Result<(), TypeError>)
        requires
            old(self).scopes().len() > 0,
            class_shapes_ok(program@),
        ensures
            agrees_state(r, program_check(old(self).state(), program@), final(self).state()),
    {
        let ghost st0 = self.state();
        match self.collect_classes(program) {
            Ok(_) => {},
            Err(err) => {
                return Err(err);
            },
        }
        proof {
            let registered = TcState { classes: class_names_registered(st0.classes, program@), ..st0 };
            lemma_registered_names(st0.classes, program@);
            lemma_described_keeps_names(registered, program@);
            assert(class_names_known(self.state().classes, program@));
        }
        let ghost st1 = self.state();
        match self.collect_function_signatures(program) {
            Ok(_) => {},
            Err(err) => {
                return Err(err);
            },
        }
        proof { lemma_functions_keep_classes(st1, program@); }
        let ghost st2 = self.state();
        match self.check_classes(program) {
            Ok(_) => {},
            Err(err) => {
                return Err(err);
            },
        }
        let ghost st3 = self.state();
        let ghost n0 = self.scopes().len();
        let mut i: usize = 0;
        assert(program@.take(0).len() == 0);
        while i < program.len()
            invariant
                i <= program@.len(),
                self.scopes().len() == n0,
                n0 > 0,
                program_check(old(self).state(), program@) == block_check(st3, program@),
                block_check(st3, program@.take(i as int)) == Ok::<TcState, Fault>(self.state()),
            decreases program@.len() - i,
        {
            proof {
                assert(program@.take(i + 1).drop_last() =~= program@.take(i as int));
                assert(program@.take(i + 1).last() == program@[i as int]);
            }
            match self.check_stmt(&program[i]) {
                Ok(_) => {},
                Err(err) => {
                    proof { lemma_block_check_prefix(st3, program@, i + 1); }
                    return Err(err);
                },
            }
            i = i + 1;
        }
        assert(program@.take(i as int) =~= program@);
        Ok(())
    }
}


/// The characters of each name of a table keyed by class.
pub open spec fn names_view(m: Map<Seq<char>, String>) -> Map<Seq<char>, Seq<char>> {
    m.map_values(|s: String| s@)
}

/// The abstract classes of a class table.
pub open spec fn classes_view(m: Map<Seq<char>, ClassInfo>) -> Map<Seq<char>, ClassModel> {
    m.map_values(|c: ClassInfo| class_model(c))
}

/// The signatures of a method table, by their views.
pub open spec fn sigs_view(m: Map<Seq<char>, FunctionSig>) -> Map<Seq<char>, SigModel> {
    m.map_values(|s: FunctionSig| sig_model(s))
}

/// Merging maps preferring the right is associative.
pub proof fn lemma_union_prefer_right_assoc<V>(a: Map<Seq<char>, V>, b: Map<Seq<char>, V>, c: Map<Seq<char>, V>)
    ensures
        a.union_prefer_right(b).union_prefer_right(c) == a.union_prefer_right(b.union_prefer_right(c)),
        Map::<Seq<char>, V>::empty().union_prefer_right(c) == c,
{
    assert(a.union_prefer_right(b).union_prefer_right(c) =~= a.union_prefer_right(b.union_prefer_right(c)));
    assert(Map::<Seq<char>, V>::empty().union_prefer_right(c) =~= c);
}

impl FunctionSig {
    /// A copy of this signature.
    pub fn duplicate(&self) -> (r: FunctionSig)
        ensures
            sig_model(r) == sig_model(*self),
    {
        let mut params: Vec<Type> = Vec::new();
        let mut i: usize = 0;
        while i < self.param_types.len()
            invariant
                i <= self.param_types@.len(),
                params@.len() == i,
                forall|k: int| 0 <= k < i ==> (#[trigger] params@[k])@ == self.param_types@[k]@,
            decreases self.param_types@.len() - i,
        {
            params.push(self.param_types[i].duplicate());
            i = i + 1;
        }
        assert(params@.map_values(|t: Type| t@) =~= self.param_types@.map_values(|t: Type| t@));
        let return_type = match &self.return_type {
            Some(t) => Some(t.duplicate()),
            None => None,
        };
        FunctionSig { param_types: params, return_type }
    }
}

/// The parent each class names, by the rules of `class_parents`.
fn class_parent_table(program: &[Stmt]) -> (r: StrMap<String>)
    ensures
        names_view(r@) == class_parents(program@),
{
    let mut parents: StrMap<String> = StrMap::new();
    let mut i: usize = 0;
    assert(names_view(parents@) =~= class_parents(program@.take(0)));
    while i < program.len()
        invariant
            i <= program@.len(),
            names_view(parents@) == class_parents(program@.take(i as int)),
        decreases program@.len() - i,
    {
        proof {
            assert(program@.take(i + 1).drop_last() =~= program@.take(i as int));
            assert(program@.take(i + 1).last() == program@[i as int]);
        }
        match &program[i] {
            Stmt::ClassDef { name, parent, .. } => match parent {
                Some(p) => {
                    let ghost before = parents@;
                    parents.insert(name.clone(), p.clone());
                    assert(names_view(parents@) =~= names_view(before).insert(name@, p@));
                },
                None => {},
            },
            _ => {},
        }
        i = i + 1;
    }
    assert(program@.take(i as int) =~= program@);
    parents
}

/// Where the last definition of class `name` stands, by `class_position`.
fn class_position_of(program: &[Stmt], name: &str) -> (r: (usize, usize))
    ensures
        r == class_position(program@, name@),
{
    let mut i: usize = program.len();
    assert(program@.take(i as int) =~= program@);
    while i > 0
        invariant
            i <= program@.len(),
            class_position(program@, name@) == class_position(program@.take(i as int), name@),
        decreases i,
    {
        proof {
            assert(program@.take(i as int).drop_last() =~= program@.take(i - 1));
            assert(program@.take(i as int).last() == program@[i - 1]);
        }
        match &program[i - 1] {
            Stmt::ClassDef { name: n, line, column, .. } => {
                if str_eq(n.as_str(), name) {
                    return (*line, *column);
                }
            },
            _ => {},
        }
        i = i - 1;
    }
    (0, 0)
}

/// Whether `name` is on `path`.
fn path_contains(path: &Vec<String>, name: &str) -> (r: bool)
    ensures
        r == path@.map_values(|s: String| s@).contains(name@),
{
    let ghost view = path@.map_values(|s: String| s@);
    let mut i: usize = 0;
    while i < path.len()
        invariant
            i <= path@.len(),
            view == path@.map_values(|s: String| s@),
            forall|k: int| 0 <= k < i ==> view[k] != name@,
        decreases path@.len() - i,
    {
        if str_eq(path[i].as_str(), name) {
            assert(view[i as int] == name@);
            return true;
        }
        i = i + 1;
    }
    false
}

/// Walking up from `start`: the class that closes a circle, by `cycle_from`.
fn find_cycle(parents: &StrMap<String>, start: &String, fuel: usize) -> (r: Option<String>)
    ensures
        match cycle_from(names_view(parents@), seq![start@], fuel as nat) {
            Some(x) => r matches Some(s) && s@ == x,
            None => r is None,
        },
{
    let ghost pv = names_view(parents@);
    let mut path: Vec<String> = Vec::new();
    path.push(start.clone());
    let mut cur: String = start.clone();
    let mut steps: usize = 0;
    assert(path@.map_values(|s: String| s@) =~= seq![start@]);
    loop
        invariant
            steps <= fuel,
            pv == names_view(parents@),
            path@.len() >= 1,
            path@.map_values(|s: String| s@).last() == cur@,
            cycle_from(pv, seq![start@], fuel as nat) == cycle_from(
                pv,
                path@.map_values(|s: String| s@),
                (fuel - steps) as nat,
            ),
        decreases fuel - steps,
    {
        let p = match parents.get(cur.as_str()) {
            None => {
                return None;
            },
            Some(p) => p,
        };
        if path_contains(&path, p.as_str()) {
            return Some(cur);
        }
        if steps == fuel {
            return None;
        }
        let ghost before = path@.map_values(|s: String| s@);
        path.push(p.clone());
        assert(path@.map_values(|s: String| s@) =~= before.push(p@));
        cur = p.clone();
        steps = steps + 1;
    }
}

/// Every parent a known class, by the rules of `parents_known`.
fn check_parents_known(classes: &StrMap<ClassInfo>, parents: &StrMap<String>, program: &[Stmt]) -> (r: Result<(), TypeError>)
    requires
        names_view(parents@) == class_parents(program@),
    ensures
        agrees_unit(r, parents_known(classes_view(classes@), program@, program@.len())),
{
    let ghost cv = classes_view(classes@);
    let mut k: usize = 0;
    while k < program.len()
        invariant
            k <= program@.len(),
            cv == classes_view(classes@),
            names_view(parents@) == class_parents(program@),
            parents_known(cv, program@, k as nat) == Ok::<(), Fault>(()),
        decreases program@.len() - k,
    {
        match &program[k] {
            Stmt::ClassDef { name, .. } => match parents.get(name.as_str()) {
                Some(p) => {
                    if !classes.contains_key(p.as_str()) {
                        let pos = class_position_of(program, name.as_str());
                        let mut message = "class ".to_owned();
                        let c = backquoted(name.as_str());
                        push_str(&mut message, c.as_str());
                        push_str(&mut message, " inherits from unknown class ");
                        let q = backquoted(p.as_str());
                        push_str(&mut message, q.as_str());
                        assert(message@ =~= unknown_parent_message(name@, p@));
                        proof { lemma_parents_known_after(cv, program@, (k + 1) as nat); }
                        return Err(fault(message, pos.0, pos.1));
                    }
                },
                None => {},
            },
            _ => {},
        }
        k = k + 1;
    }
    Ok(())
}

/// Once the check fails within the first `k` statements, it fails the same
/// way over all of them.
pub proof fn lemma_parents_known_after(classes: Map<Seq<char>, ClassModel>, program: Seq<Stmt>, k: nat)
    requires
        0 < k <= program.len(),
        parents_known(classes, program, k) is Err,
    ensures
        parents_known(classes, program, program.len()) == parents_known(classes, program, k),
    decreases program.len() - k,
{
    if k < program.len() {
        lemma_parents_known_after(classes, program, k + 1);
    }
}

/// Once the check fails within the first `k` statements, it fails the same
/// way over all of them.
pub proof fn lemma_cycles_absent_after(parents: Map<Seq<char>, Seq<char>>, program: Seq<Stmt>, k: nat)
    requires
        0 < k <= program.len(),
        cycles_absent(parents, program, k) is Err,
    ensures
        cycles_absent(parents, program, program.len()) == cycles_absent(parents, program, k),
    decreases program.len() - k,
{
    if k < program.len() {
        lemma_cycles_absent_after(parents, program, k + 1);
    }
}

/// No circular ancestry, by the rules of `cycles_absent`.
fn check_no_cycles(parents: &StrMap<String>, program: &[Stmt]) -> (r: Result<(), TypeError>)
    ensures
        agrees_unit(r, cycles_absent(names_view(parents@), program@, program@.len())),
{
    let ghost pv = names_view(parents@);
    let mut k: usize = 0;
    while k < program.len()
        invariant
            k <= program@.len(),
            pv == names_view(parents@),
            cycles_absent(pv, program@, k as nat) == Ok::<(), Fault>(()),
        decreases program@.len() - k,
    {
        match &program[k] {
            Stmt::ClassDef { name, .. } => match find_cycle(parents, name, program.len()) {
                Some(x) => {
                    let pos = class_position_of(program, x.as_str());
                    let mut message = "inheritance cycle detected: class ".to_owned();
                    let c = backquoted(x.as_str());
                    push_str(&mut message, c.as_str());
                    push_str(&mut message, " is circular");
                    assert(message@ =~= cycle_message(x@));
                    proof { lemma_cycles_absent_after(pv, program@, (k + 1) as nat); }
                    return Err(fault(message, pos.0, pos.1));
                },
                None => {},
            },
            _ => {},
        }
        k = k + 1;
    }
    Ok(())
}

/// Adds each field of `from` that `acc` lacks.
fn merge_missing_fields(acc: &mut StrMap<Type>, from: &StrMap<Type>)
    ensures
        scope_types(final(acc)@) == scope_types(from@).union_prefer_right(scope_types(old(acc)@)),
{
    proof { use_type_invariant(from); }
    let ghost start = scope_types(acc@);
    let n = from.len();
    let mut i: usize = 0;
    proof { from.lemma_prefix_view_step(0); }
    assert(scope_types(acc@) =~= scope_types(from.prefix_view(0)).union_prefer_right(start));
    while i < n
        invariant
            i <= n,
            n == from.size(),
            from.wf(),
            start == scope_types(old(acc)@),
            scope_types(acc@) == scope_types(from.prefix_view(i as int)).union_prefer_right(start),
        decreases n - i,
    {
        let k = from.key_at(i);
        proof {
            from.lemma_prefix_view_step(i as int);
            from.lemma_prefix_fresh(i as int);
        }
        if !acc.contains_key(k.as_str()) {
            let v = from.value_at(i).duplicate();
            let ghost before = acc@;
            let ghost pre = scope_types(from.prefix_view(i as int));
            assert(!scope_types(acc@).dom().contains(k@));
            assert(!pre.union_prefer_right(start).dom().contains(k@));
            acc.insert(k.clone(), v);
            assert(scope_types(acc@) =~= scope_types(before).insert(k@, v@));
            assert(scope_types(from.prefix_view(i + 1)) =~= pre.insert(k@, v@));
            assert(!start.contains_key(k@));
            assert(pre.insert(k@, v@).union_prefer_right(start) =~= pre.union_prefer_right(start).insert(k@, v@));
        } else {
            assert(scope_types(acc@) =~= scope_types(from.prefix_view(i + 1)).union_prefer_right(start));
        }
        i = i + 1;
    }
    proof { from.lemma_prefix_view_full(); }
}

/// Adds each method of `from` that `acc` lacks.
fn merge_missing_methods(acc: &mut StrMap<FunctionSig>, from: &StrMap<FunctionSig>)
    ensures
        sigs_view(final(acc)@) == sigs_view(from@).union_prefer_right(sigs_view(old(acc)@)),
{
    proof { use_type_invariant(from); }
    let ghost start = sigs_view(acc@);
    let n = from.len();
    let mut i: usize = 0;
    proof { from.lemma_prefix_view_step(0); }
    assert(sigs_view(acc@) =~= sigs_view(from.prefix_view(0)).union_prefer_right(start));
    while i < n
        invariant
            i <= n,
            n == from.size(),
            from.wf(),
            start == sigs_view(old(acc)@),
            sigs_view(acc@) == sigs_view(from.prefix_view(i as int)).union_prefer_right(start),
        decreases n - i,
    {
        let k = from.key_at(i);
        proof {
            from.lemma_prefix_view_step(i as int);
            from.lemma_prefix_fresh(i as int);
        }
        if !acc.contains_key(k.as_str()) {
            let v = from.value_at(i).duplicate();
            let ghost before = acc@;
            let ghost pre = sigs_view(from.prefix_view(i as int));
            assert(!sigs_view(acc@).dom().contains(k@));
            assert(!pre.union_prefer_right(start).dom().contains(k@));
            acc.insert(k.clone(), v);
            assert(sigs_view(acc@) =~= sigs_view(before).insert(k@, sig_model(v)));
            assert(sigs_view(from.prefix_view(i + 1)) =~= pre.insert(k@, sig_model(v)));
            assert(!start.contains_key(k@));
            assert(pre.insert(k@, sig_model(v)).union_prefer_right(start) =~= pre.union_prefer_right(start).insert(k@, sig_model(v)));
        } else {
            assert(sigs_view(acc@) =~= sigs_view(from.prefix_view(i + 1)).union_prefer_right(start));
        }
        i = i + 1;
    }
    proof { from.lemma_prefix_view_full(); }
}

/// Class `name` with its ancestors' fields and methods merged in, by the
/// rules of `flat_fields` and `flat_methods`.
fn flattened(classes: &StrMap<ClassInfo>, parents: &StrMap<String>, name: &String, fuel: usize) -> (r: ClassInfo)
    requires
        classes@.contains_key(name@),
    ensures
        class_model(r) == (ClassModel {
            fields: flat_fields(classes_view(classes@), names_view(parents@), name@, fuel as nat),
            methods: flat_methods(classes_view(classes@), names_view(parents@), name@, fuel as nat),
        }),
{
    let ghost cv = classes_view(classes@);
    let ghost pv = names_view(parents@);
    let own = match classes.get(name.as_str()) {
        Some(info) => info,
        None => {
            return ClassInfo { fields: StrMap::new(), methods: StrMap::new() };
        },
    };
    let mut fields: StrMap<Type> = StrMap::new();
    merge_missing_fields(&mut fields, &own.fields);
    let mut methods: StrMap<FunctionSig> = StrMap::new();
    merge_missing_methods(&mut methods, &own.methods);
    proof {
        lemma_union_prefer_right_assoc(Map::<Seq<char>, TypeModel>::empty(), Map::<Seq<char>, TypeModel>::empty(), cv[name@].fields);
        lemma_union_prefer_right_assoc(Map::<Seq<char>, SigModel>::empty(), Map::<Seq<char>, SigModel>::empty(), cv[name@].methods);
        assert(cv[name@] == class_model(*own));
    }
    assert(scope_types(fields@) =~= cv[name@].fields);
    assert(sigs_view(methods@) =~= cv[name@].methods);
    let mut cur: String = name.clone();
    let mut steps: usize = 0;
    let mut more = true;
    while more && steps < fuel
        invariant
            steps <= fuel,
            cv == classes_view(classes@),
            pv == names_view(parents@),
            cv.contains_key(cur@),
            !more ==> !(pv.contains_key(cur@) && cv.contains_key(pv[cur@])),
            flat_fields(cv, pv, name@, fuel as nat) == (if (fuel - steps) > 0 && pv.contains_key(cur@) && cv.contains_key(pv[cur@]) {
                flat_fields(cv, pv, pv[cur@], (fuel - steps - 1) as nat)
            } else {
                Map::empty()
            }).union_prefer_right(scope_types(fields@)),
            flat_methods(cv, pv, name@, fuel as nat) == (if (fuel - steps) > 0 && pv.contains_key(cur@) && cv.contains_key(pv[cur@]) {
                flat_methods(cv, pv, pv[cur@], (fuel - steps - 1) as nat)
            } else {
                Map::empty()
            }).union_prefer_right(sigs_view(methods@)),
        decreases (fuel - steps) as int + (if more { 1int } else { 0int }),
    {
        let found = match parents.get(cur.as_str()) {
            None => None,
            Some(p) => match classes.get(p.as_str()) {
                None => None,
                Some(info) => Some((p, info)),
            },
        };
        match found {
            None => {
                more = false;
            },
            Some((p, info)) => {
                proof {
                    assert(cv[p@] == class_model(*info));
                    let f = (fuel - steps - 1) as nat;
                    let above_f = if f > 0 && pv.contains_key(p@) && cv.contains_key(pv[p@]) {
                        flat_fields(cv, pv, pv[p@], (f - 1) as nat)
                    } else {
                        Map::empty()
                    };
                    let above_m = if f > 0 && pv.contains_key(p@) && cv.contains_key(pv[p@]) {
                        flat_methods(cv, pv, pv[p@], (f - 1) as nat)
                    } else {
                        Map::empty()
                    };
                    lemma_union_prefer_right_assoc(above_f, cv[p@].fields, scope_types(fields@));
                    lemma_union_prefer_right_assoc(above_m, cv[p@].methods, sigs_view(methods@));
                    lemma_union_prefer_right_assoc(Map::<Seq<char>, TypeModel>::empty(), Map::<Seq<char>, TypeModel>::empty(), cv[p@].fields);
                    lemma_union_prefer_right_assoc(Map::<Seq<char>, SigModel>::empty(), Map::<Seq<char>, SigModel>::empty(), cv[p@].methods);
                }
                merge_missing_fields(&mut fields, &info.fields);
                merge_missing_methods(&mut methods, &info.methods);
                cur = p.clone();
                steps = steps + 1;
            },
        }
    }
    proof {
        lemma_union_prefer_right_assoc(Map::<Seq<char>, TypeModel>::empty(), Map::<Seq<char>, TypeModel>::empty(), scope_types(fields@));
        lemma_union_prefer_right_assoc(Map::<Seq<char>, SigModel>::empty(), Map::<Seq<char>, SigModel>::empty(), sigs_view(methods@));
    }
    let r = ClassInfo { fields, methods };
    assert(class_model(r).methods =~= sigs_view(r.methods@));
    r
}

/// Every class of the table with its ancestors' members merged in, by the
/// rules of `inherited`.
fn flatten_inheritance(classes: &StrMap<ClassInfo>, parents: &StrMap<String>, fuel: usize) -> (r: StrMap<ClassInfo>)
    ensures
        classes_view(r@) == inherited(classes_view(classes@), names_view(parents@), fuel as nat),
{
    proof { use_type_invariant(classes); }
    let ghost cv = classes_view(classes@);
    let ghost pv = names_view(parents@);
    let n = classes.len();
    let mut out: StrMap<ClassInfo> = StrMap::new();
    let mut i: usize = 0;
    proof { classes.lemma_prefix_view_step(0); }
    assert(classes_view(out@) =~= inherited(cv, pv, fuel as nat).restrict(classes.prefix_view(0).dom()));
    while i < n
        invariant
            i <= n,
            n == classes.size(),
            classes.wf(),
            cv == classes_view(classes@),
            pv == names_view(parents@),
            classes_view(out@) == inherited(cv, pv, fuel as nat).restrict(classes.prefix_view(i as int).dom()),
        decreases n - i,
    {
        let name = classes.key_at(i);
        proof { classes.lemma_prefix_view_step(i as int); }
        let info = flattened(classes, parents, name, fuel);
        let ghost before = out@;
        let ghost cm = class_model(info);
        assert(inherited(cv, pv, fuel as nat)[name@] == cm);
        out.insert(name.clone(), info);
        assert(classes.prefix_view(i + 1).dom() =~= classes.prefix_view(i as int).dom().insert(name@));
        assert(classes_view(out@) =~= classes_view(before).insert(name@, cm));
        assert(classes_view(out@) =~= inherited(cv, pv, fuel as nat).restrict(classes.prefix_view(i + 1).dom()));
        i = i + 1;
    }
    proof { classes.lemma_prefix_view_full(); }
    assert(classes_view(out@) =~= inherited(cv, pv, fuel as nat));
    out
}


/// The position of the first definition of class `name`, by `first_class_index`.
fn first_class_def(program: &[Stmt], name: &str) -> (r: Option<usize>)
    ensures
        match first_class_index(program@, name@) {
            Some(i) => r == Some(i as usize) && 0 <= i < program@.len(),
            None => r is None,
        },
{
    let mut i: usize = 0;
    assert(program@.take(0).len() == 0);
    while i < program.len()
        invariant
            i <= program@.len(),
            first_class_index(program@.take(i as int), name@) is None,
        decreases program@.len() - i,
    {
        proof {
            assert(program@.take(i + 1).drop_last() =~= program@.take(i as int));
            assert(program@.take(i + 1).last() == program@[i as int]);
        }
        match &program[i] {
            Stmt::ClassDef { name: n, .. } => {
                if str_eq(n.as_str(), name) {
                    proof { lemma_first_class_index_prefix(program@, name@, i + 1); }
                    return Some(i);
                }
            },
            _ => {},
        }
        i = i + 1;
    }
    assert(program@.take(i as int) =~= program@);
    None
}

/// The first of `fields`, in order, that `assigned` lacks, by `first_unassigned`.
fn check_field_list(class_name: &str, fields: &Vec<FieldDecl>, assigned: &StrMap<bool>) -> (r: Result<(), TypeError>)
    ensures
        agrees_unit(r, first_unassigned(fields@, assigned@.dom(), class_name@)),
{
    let ghost names = assigned@.dom();
    let mut i: usize = 0;
    assert(fields@.take(0).len() == 0);
    while i < fields.len()
        invariant
            i <= fields@.len(),
            names == assigned@.dom(),
            first_unassigned(fields@.take(i as int), names, class_name@) == Ok::<(), Fault>(()),
        decreases fields@.len() - i,
    {
        let f = &fields[i];
        proof {
            assert(fields@.take(i + 1).drop_last() =~= fields@.take(i as int));
            assert(fields@.take(i + 1).last() == *f);
        }
        if !assigned.contains_key(f.name.as_str()) {
            let mut message = "field ".to_owned();
            let n = backquoted(f.name.as_str());
            push_str(&mut message, n.as_str());
            push_str(&mut message, " of class ");
            let c = backquoted(class_name);
            push_str(&mut message, c.as_str());
            push_str(&mut message, " is never assigned in `initializer` (it would be `Nil` at runtime, not ");
            let a = backquoted(f.type_ann.name.as_str());
            push_str(&mut message, a.as_str());
            push_str(&mut message, ")");
            assert(message@ =~= unassigned_field(*f, class_name@));
            proof { lemma_first_unassigned_prefix(fields@, names, class_name@, i + 1); }
            return Err(fault(message, f.line, f.column));
        }
        i = i + 1;
    }
    assert(fields@.take(i as int) =~= fields@);
    Ok(())
}


/// No implicit coercion between the numeric types: no operator combines an
/// `Integer` with a `Float` (in either order), such an expression is
/// rejected with the operator's mismatch message at its own position, and

/// An `if` or `while` whose condition has a type other than `Boolean` is
/// refused at the statement, naming the type found.
pub proof fn lemma_condition_must_be_boolean(st: TcState, s: Stmt, t: TypeModel)
    requires
        s is If || s is While,
        expr_type(st, if s is If { s->If_condition } else { s->While_condition }) == Ok::<TypeModel, Fault>(t),
        t != TypeModel::Boolean,
    ensures
        stmt_check(st, s) == Err::<TcState, Fault>((
            (if s is If { "`if`"@ } else { "`while`"@ }) + " condition must be Boolean, found "@ + quoted(t),
            stmt_pos(s).0,
            stmt_pos(s).1,
        )),
{
}


/// Ordering (`<`, `>`, `<=`, `>=`) compares two Integers or two Floats and
/// gives a Boolean; on any other pair of operand types it is refused. In an
/// expression, two operands of one numeric type compare to a Boolean.
pub proof fn lemma_ordering_compares_numbers(st: TcState, op: BinOp, left: Expr, right: Expr, t: TypeModel, line: usize, column: usize)
    requires
        op == BinOp::Lt || op == BinOp::Gt || op == BinOp::LtEq || op == BinOp::GtEq,
    ensures
        binary_type(op, TypeModel::Integer, TypeModel::Integer) == Some(TypeModel::Boolean),
        binary_type(op, TypeModel::Float, TypeModel::Float) == Some(TypeModel::Boolean),
        forall|a: TypeModel, b: TypeModel| #[trigger] binary_type(op, a, b) is Some <==> (a == b && (a == TypeModel::Integer || a == TypeModel::Float)),
        forall|a: TypeModel, b: TypeModel| #[trigger] binary_type(op, a, b) is Some ==> binary_type(op, a, b) == Some(TypeModel::Boolean),
        (t == TypeModel::Integer || t == TypeModel::Float) && expr_type(st, left) == Ok::<TypeModel, Fault>(t)
            && expr_type(st, right) == Ok::<TypeModel, Fault>(t)
            ==> expr_type(st, Expr::Binary { op, left: Box::new(left), right: Box::new(right), line, column })
            == Ok::<TypeModel, Fault>(TypeModel::Boolean),
{
}


/// Once a prefix of `elsif` branches is refused, every longer prefix is
/// refused with the same error.
proof fn lemma_elsifs_error_persists(st: TcState, b: Seq<(Expr, Vec<Stmt>)>, n: int, f: Fault)
    requires
        0 <= n <= b.len(),
        elsifs_check(st, b.take(n)) == Err::<TcState, Fault>(f),
    ensures
        elsifs_check(st, b) == Err::<TcState, Fault>(f),
    decreases b.len() - n,
{
    if n < b.len() {
        assert(b.take(n + 1).drop_last() =~= b.take(n));
        lemma_elsifs_error_persists(st, b, n + 1, f);
    } else {
        assert(b.take(n) =~= b);
    }
}

/// Every `elsif` condition of an accepted chain is a Boolean in the state
/// its branch is checked in, the state after the branches before it.
pub proof fn lemma_elsif_conditions_are_boolean(st: TcState, b: Seq<(Expr, Vec<Stmt>)>, k: int)
    requires
        0 <= k < b.len(),
        elsifs_check(st, b) is Ok,
    ensures
        elsifs_check(st, b.take(k)) is Ok,
        expr_type(elsifs_check(st, b.take(k))->Ok_0, b[k].0) == Ok::<TypeModel, Fault>(TypeModel::Boolean),
{
    match elsifs_check(st, b.take(k + 1)) {
        Err(f) => {
            lemma_elsifs_error_persists(st, b, k + 1, f);
        },
        Ok(_) => {
            assert(b.take(k + 1).drop_last() =~= b.take(k));
            assert(b.take(k + 1).last() == b[k]);
            match elsifs_check(st, b.take(k)) {
                Err(f) => {
                    lemma_elsifs_error_persists(st, b, k, f);
                },
                Ok(_) => {},
            }
        },
    }
}

/// An `if` whose first `k` `elsif` branches pass but whose `k`-th `elsif`
/// condition has a type other than Boolean is refused at that condition,
/// naming the type found, just as a non-Boolean `if` condition is.
pub proof fn lemma_if_refuses_non_boolean_elsif(st: TcState, s: Stmt, k: int, st1: TcState, stk: TcState, t: TypeModel)
    requires
        s is If,
        condition_check(st, s->If_condition, "`if`"@, s->If_line, s->If_column) is Ok,
        block_check(st, s->If_then_body@) == Ok::<TcState, Fault>(st1),
        0 <= k < s->If_elsif_branches@.len(),
        elsifs_check(st1, s->If_elsif_branches@.take(k)) == Ok::<TcState, Fault>(stk),
        expr_type(stk, s->If_elsif_branches@[k].0) == Ok::<TypeModel, Fault>(t),
        t != TypeModel::Boolean,
    ensures
        stmt_check(st, s) == Err::<TcState, Fault>((
            "`elsif`"@ + " condition must be Boolean, found "@ + quoted(t),
            expr_pos(s->If_elsif_branches@[k].0).0,
            expr_pos(s->If_elsif_branches@[k].0).1,
        )),
{
    let b = s->If_elsif_branches@;
    let f = ("`elsif`"@ + " condition must be Boolean, found "@ + quoted(t), expr_pos(b[k].0).0, expr_pos(b[k].0).1);
    assert(b.take(k + 1).drop_last() =~= b.take(k));
    assert(b.take(k + 1).last() == b[k]);
    assert(condition_check(stk, b[k].0, "`elsif`"@, expr_pos(b[k].0).0, expr_pos(b[k].0).1) == Err::<(), Fault>(f));
    assert(b.take(k + 1).len() == k + 1);
    assert(elsifs_check(st1, b.take(k + 1)) == Err::<TcState, Fault>(f));
    lemma_elsifs_error_persists(st1, b, k + 1, f);
}


/// Arithmetic keeps its one numeric operand type, `+` also joins two
/// Strings, and `==`/`!=` compare any two values of one type to a Boolean;
/// operands of two different types are refused by every operator.
pub proof fn lemma_operator_types(op: BinOp, t: TypeModel, a: TypeModel, b: TypeModel)
    ensures
        (op == BinOp::Add || op == BinOp::Sub || op == BinOp::Mul || op == BinOp::Div)
            && (t == TypeModel::Integer || t == TypeModel::Float) ==> binary_type(op, t, t) == Some(t),
        binary_type(BinOp::Add, TypeModel::String, TypeModel::String) == Some(TypeModel::String),
        (op == BinOp::Sub || op == BinOp::Mul || op == BinOp::Div) ==> binary_type(op, TypeModel::String, TypeModel::String) is None,
        (op == BinOp::Eq || op == BinOp::NotEq) ==> binary_type(op, t, t) == Some(TypeModel::Boolean),
        a != b ==> binary_type(op, a, b) is None,
{
}


/// A `for` loop whose range bounds are not both Integers is refused at the loop.
pub proof fn lemma_for_range_is_integer(st: TcState, s: Stmt, a: TypeModel, b: TypeModel)
    requires
        s is For,
        expr_type(st, s->For_range_start) == Ok::<TypeModel, Fault>(a),
        expr_type(st, s->For_range_end) == Ok::<TypeModel, Fault>(b),
        a != TypeModel::Integer || b != TypeModel::Integer,
    ensures
        stmt_check(st, s) == Err::<TcState, Fault>(("`for` range bounds must be Integer"@, s->For_line, s->For_column)),
{
}

/// neither type is accepted where the other is declared.
pub proof fn lemma_no_numeric_coercion(st: TcState, op: BinOp, left: Expr, right: Expr, line: usize, column: usize)
    ensures
        binary_type(op, TypeModel::Integer, TypeModel::Float) is None,
        binary_type(op, TypeModel::Float, TypeModel::Integer) is None,
        !assignable(TypeModel::Integer, TypeModel::Float),
        !assignable(TypeModel::Float, TypeModel::Integer),
        expr_type(st, left) == Ok::<TypeModel, Fault>(TypeModel::Integer) && expr_type(st, right) == Ok::<TypeModel, Fault>(TypeModel::Float)
            ==> expr_type(st, Expr::Binary { op, left: Box::new(left), right: Box::new(right), line, column })
            == Err::<TypeModel, Fault>((operand_mismatch(op, TypeModel::Integer, TypeModel::Float), line, column)),
        expr_type(st, left) == Ok::<TypeModel, Fault>(TypeModel::Float) && expr_type(st, right) == Ok::<TypeModel, Fault>(TypeModel::Integer)
            ==> expr_type(st, Expr::Binary { op, left: Box::new(left), right: Box::new(right), line, column })
            == Err::<TypeModel, Fault>((operand_mismatch(op, TypeModel::Float, TypeModel::Integer), line, column)),
{
}

/// Every top-level function has its signature before any body is checked,
/// so a call may come before the definition it names.
pub proof fn lemma_functions_known_before_bodies(st: TcState, program: Seq<Stmt>, i: int)
    requires
        functions_collected(st, program) is Ok,
        0 <= i < program.len(),
        program[i] is FunctionDef,
    ensures
        match functions_collected(st, program) {
            Ok(st2) => st2.functions.contains_key(program[i]->FunctionDef_name@),
            Err(_) => false,
        },
    decreases program.len(),
{
    if i < program.len() - 1 {
        assert(program.drop_last()[i] == program[i]);
        lemma_functions_known_before_bodies(st, program.drop_last(), i);
    }
}

/// What a class ends up with: its own fields and methods, unchanged, and
/// every field and method of its parent that it does not declare itself.
pub proof fn lemma_child_inherits(
    classes: Map<Seq<char>, ClassModel>,
    parents: Map<Seq<char>, Seq<char>>,
    c: Seq<char>,
    fuel: nat,
)
    requires
        fuel > 0,
        parents.contains_key(c),
        classes.contains_key(parents[c]),
    ensures
        forall|k: Seq<char>| #[trigger] classes[c].fields.contains_key(k) ==> flat_fields(classes, parents, c, fuel).contains_key(k)
            && flat_fields(classes, parents, c, fuel)[k] == classes[c].fields[k],
        forall|k: Seq<char>| #[trigger] classes[c].methods.contains_key(k) ==> flat_methods(classes, parents, c, fuel).contains_key(k)
            && flat_methods(classes, parents, c, fuel)[k] == classes[c].methods[k],
        forall|k: Seq<char>| #[trigger] classes[parents[c]].fields.contains_key(k) ==> flat_fields(classes, parents, c, fuel).contains_key(k),
        forall|k: Seq<char>| #[trigger] classes[parents[c]].methods.contains_key(k) ==> flat_methods(classes, parents, c, fuel).contains_key(k),
{
    let p = parents[c];
    let f = (fuel - 1) as nat;
    lemma_flat_keeps_own(classes, parents, p, f);
}

/// A class's flattened members include its own, unchanged.
pub proof fn lemma_flat_keeps_own(classes: Map<Seq<char>, ClassModel>, parents: Map<Seq<char>, Seq<char>>, c: Seq<char>, fuel: nat)
    ensures
        forall|k: Seq<char>| #[trigger] classes[c].fields.contains_key(k) ==> flat_fields(classes, parents, c, fuel).contains_key(k)
            && flat_fields(classes, parents, c, fuel)[k] == classes[c].fields[k],
        forall|k: Seq<char>| #[trigger] classes[c].methods.contains_key(k) ==> flat_methods(classes, parents, c, fuel).contains_key(k)
            && flat_methods(classes, parents, c, fuel)[k] == classes[c].methods[k],
{
}

/// Every class named as some class's parent has a definition naming it so.
pub proof fn lemma_parent_defined(program: Seq<Stmt>, c: Seq<char>) -> (i: int)
    requires
        class_parents(program).contains_key(c),
    ensures
        0 <= i < program.len(),
        program[i] is ClassDef,
        program[i]->ClassDef_name@ == c,
    decreases program.len(),
{
    let before = class_parents(program.drop_last());
    match program.last() {
        Stmt::ClassDef { name, parent, .. } => {
            if parent is Some && name@ == c {
                return (program.len() - 1) as int;
            }
        },
        _ => {},
    }
    let j = lemma_parent_defined(program.drop_last(), c);
    assert(program.drop_last()[j] == program[j]);
    j
}

/// A check that passes over the whole program passes over each prefix.
pub proof fn lemma_parents_known_prefix(classes: Map<Seq<char>, ClassModel>, program: Seq<Stmt>, k: nat)
    requires
        parents_known(classes, program, program.len()) is Ok,
        k <= program.len(),
    ensures
        parents_known(classes, program, k) is Ok,
    decreases program.len() - k,
{
    if k < program.len() {
        lemma_parents_known_prefix(classes, program, k + 1);
    }
}

/// A check that passes over the whole program passes over each prefix.
pub proof fn lemma_cycles_absent_prefix(parents: Map<Seq<char>, Seq<char>>, program: Seq<Stmt>, k: nat)
    requires
        cycles_absent(parents, program, program.len()) is Ok,
        k <= program.len(),
    ensures
        cycles_absent(parents, program, k) is Ok,
    decreases program.len() - k,
{
    if k < program.len() {
        lemma_cycles_absent_prefix(parents, program, k + 1);
    }
}

/// Once inheritance is resolved, every parent is a known class, no class is
/// its own parent, and each class with a parent has kept its own fields and
/// methods and gained each of its parent's.
pub proof fn lemma_inheritance_resolved(st: TcState, program: Seq<Stmt>, c: Seq<char>)
    requires
        inheritance_resolved(st, program) is Ok,
        st.classes.contains_key(c),
        class_parents(program).contains_key(c),
    ensures
        ({
            let p = class_parents(program)[c];
            let after = inheritance_resolved(st, program)->Ok_0.classes;
            &&& st.classes.contains_key(p)
            &&& p != c
            &&& after.contains_key(c)
            &&& forall|k: Seq<char>| #[trigger] st.classes[c].fields.contains_key(k) ==> after[c].fields.contains_key(k)
                && after[c].fields[k] == st.classes[c].fields[k]
            &&& forall|k: Seq<char>| #[trigger] st.classes[c].methods.contains_key(k) ==> after[c].methods.contains_key(k)
                && after[c].methods[k] == st.classes[c].methods[k]
            &&& forall|k: Seq<char>| #[trigger] st.classes[p].fields.contains_key(k) ==> after[c].fields.contains_key(k)
            &&& forall|k: Seq<char>| #[trigger] st.classes[p].methods.contains_key(k) ==> after[c].methods.contains_key(k)
        }),
{
    let parents = class_parents(program);
    let i = lemma_parent_defined(program, c);
    lemma_parents_known_prefix(st.classes, program, (i + 1) as nat);
    lemma_cycles_absent_prefix(parents, program, (i + 1) as nat);
    assert(seq![c].contains(c)) by {
        assert(seq![c][0] == c);
    }
    lemma_child_inherits(st.classes, parents, c, program.len());
}


/// The class `k` generations above `c`, if the parents reach that far.
pub open spec fn ancestor(parents: Map<Seq<char>, Seq<char>>, c: Seq<char>, k: nat) -> Option<Seq<char>>
    decreases k,
{
    if k == 0 {
        Some(c)
    } else if parents.contains_key(c) {
        ancestor(parents, parents[c], (k - 1) as nat)
    } else {
        None
    }
}

/// A walk that finds no circle leaves the path behind: none of the next
/// `fuel + 1` ancestors of its last class is on it.
pub proof fn lemma_walk_leaves_path(parents: Map<Seq<char>, Seq<char>>, path: Seq<Seq<char>>, fuel: nat, k: nat)
    requires
        path.len() >= 1,
        cycle_from(parents, path, fuel) is None,
        1 <= k <= fuel + 1,
    ensures
        ancestor(parents, path.last(), k) matches Some(y) ==> !path.contains(y),
    decreases fuel,
{
    let x = path.last();
    if parents.contains_key(x) && k == 1 {
        assert(ancestor(parents, parents[x], 0) == Some(parents[x]));
        assert(!path.contains(parents[x]));
    }
    if parents.contains_key(x) && k > 1 {
        let next = path.push(parents[x]);
        assert(next.last() == parents[x]);
        lemma_walk_leaves_path(parents, next, (fuel - 1) as nat, (k - 1) as nat);
        if let Some(y) = ancestor(parents, path.last(), k) {
            if path.contains(y) {
                let j = choose|j: int| 0 <= j < path.len() && path[j] == y;
                assert(next[j] == y);
            }
        }
    }
}

/// Once inheritance is resolved, no class is its own ancestor: following
/// parents up from a defined class never comes back to it.
pub proof fn lemma_no_class_is_its_own_ancestor(st: TcState, program: Seq<Stmt>, i: int, k: nat)
    requires
        inheritance_resolved(st, program) is Ok,
        0 <= i < program.len(),
        program[i] is ClassDef,
        1 <= k <= program.len() + 1,
    ensures
        ancestor(class_parents(program), program[i]->ClassDef_name@, k) != Some(program[i]->ClassDef_name@),
{
    let parents = class_parents(program);
    let c = program[i]->ClassDef_name@;
    lemma_cycles_absent_prefix(parents, program, (i + 1) as nat);
    assert(seq![c].last() == c);
    lemma_walk_leaves_path(parents, seq![c], program.len(), k);
    assert(seq![c][0] == c);
}

} // verus!
