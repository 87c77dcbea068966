//! The syntax tree.
//!
//! A tree is built bottom-up and owns its children. Each kind of node is a
//! struct of its own, and `AstNode` is their closed union.
use vstd::prelude::*;

verus! {

/// Marks the types that are nodes of the syntax tree.
pub trait ASTExpr {

}

/// A number, kept as the text of its numeral.
#[derive(Debug, PartialEq, Eq)]
pub struct NumberExprAST(pub String);

/// A variable, by its name.
#[derive(Debug, PartialEq, Eq)]
pub struct VariableExprAST(pub String);

/// A binary operator applied to two operands.
#[derive(Debug, PartialEq, Eq)]
pub struct BinaryExprAST {
    pub operator: char,
    pub lhs_operand: Box<AstNode>,
    pub rhs_operand: Box<AstNode>,
}

/// A call of a function by its name, with the arguments in order.
#[derive(Debug, PartialEq, Eq)]
pub struct CallExprAST {
    pub callee: String,
    pub args: Vec<AstNode>,
}

/// The signature of a function: its name and the names of its parameters.
#[derive(Debug, PartialEq, Eq)]
pub struct PrototypeAST {
    pub name: String,
    pub args: Vec<String>,
}

/// A function: its signature and the expression that is its body.
#[derive(Debug, PartialEq, Eq)]
pub struct FunctionAST {
    pub proto: Box<PrototypeAST>,
    pub body: Box<AstNode>,
}

/// A node of the syntax tree.
#[derive(Debug, PartialEq, Eq)]
pub enum AstNode {
    Number(NumberExprAST),
    Variable(VariableExprAST),
    Binary(BinaryExprAST),
    Call(CallExprAST),
    Prototype(PrototypeAST),
    Function(FunctionAST),
}

/// The mathematical value of a signature.
pub struct PrototypeModel {
    pub name: Seq<char>,
    pub args: Seq<Seq<char>>,
}

/// The mathematical value of a syntax tree.
pub enum AstModel {
    Number(Seq<char>),
    Variable(Seq<char>),
    Binary(char, Box<AstModel>, Box<AstModel>),
    Call(Seq<char>, Seq<AstModel>),
    Prototype(PrototypeModel),
    Function(PrototypeModel, Box<AstModel>),
}

/// The texts of a sequence of strings, in order.
pub open spec fn texts(names: Seq<String>) -> Seq<Seq<char>> {
    Seq::new(names.len(), |i: int| names[i]@)
}

/// The models of the nodes of a sequence, in order.
pub open spec fn models(nodes: Seq<AstNode>) -> Seq<AstModel>
    decreases nodes,
{
    Seq::new(
        nodes.len(),
        |i: int|
            if 0 <= i < nodes.len() {
                nodes[i].model()
            } else {
                AstModel::Number(Seq::empty())
            },
    )
}

impl View for PrototypeAST {
    type V = PrototypeModel;

    open spec fn view(&self) -> PrototypeModel {
        PrototypeModel { name: self.name@, args: texts(self.args@) }
    }
}

impl AstNode {
    /// The mathematical value of the tree under this node.
    pub open spec fn model(self) -> AstModel
        decreases self,
    {
        match self {
            AstNode::Number(n) => AstModel::Number(n.0@),
            AstNode::Variable(v) => AstModel::Variable(v.0@),
            AstNode::Binary(b) => AstModel::Binary(
                b.operator,
                Box::new((*b.lhs_operand).model()),
                Box::new((*b.rhs_operand).model()),
            ),
            AstNode::Call(c) => AstModel::Call(c.callee@, models(c.args@)),
            AstNode::Prototype(p) => AstModel::Prototype(p@),
            AstNode::Function(f) => AstModel::Function(f.proto@, Box::new((*f.body).model())),
        }
    }
}

impl View for AstNode {
    type V = AstModel;

    open spec fn view(&self) -> AstModel {
        self.model()
    }
}

/// Adding a node at the end of a sequence adds its model at the end of the
/// models.
pub proof fn lemma_models_push(nodes: Seq<AstNode>, node: AstNode)
    ensures
        models(nodes.push(node)) == models(nodes).push(node@),
{
    assert(models(nodes.push(node)) =~= models(nodes).push(node@));
}

/// Adding a string at the end of a sequence adds its text at the end of the
/// texts.
pub proof fn lemma_texts_push(names: Seq<String>, name: String)
    ensures
        texts(names.push(name)) == texts(names).push(name@),
{
    assert(texts(names.push(name)) =~= texts(names).push(name@));
}

impl NumberExprAST {
    pub fn new(number: String) -> (r: Self)
        ensures
            r.0 == number,
    {
        Self(number)
    }
}

impl VariableExprAST {
    pub fn new(var: String) -> (r: Self)
        ensures
            r.0 == var,
    {
        Self(var)
    }
}

impl BinaryExprAST {
    pub fn new(operator: char, lhs_operand: Box<AstNode>, rhs_operand: Box<AstNode>) -> (r: Self)
        ensures
            r.operator == operator,
            r.lhs_operand == lhs_operand,
            r.rhs_operand == rhs_operand,
    {
        Self { operator, lhs_operand, rhs_operand }
    }
}

impl CallExprAST {
    pub fn new(callee: String, args: Vec<AstNode>) -> (r: Self)
        ensures
            r.callee == callee,
            r.args == args,
    {
        Self { callee, args }
    }
}

impl PrototypeAST {
    pub fn new(name: String, args: Vec<String>) -> (r: Self)
        ensures
            r.name == name,
            r.args == args,
    {
        Self { name, args }
    }
}

impl FunctionAST {
    pub fn new(proto: Box<PrototypeAST>, body: Box<AstNode>) -> (r: Self)
        ensures
            r.proto == proto,
            r.body == body,
    {
        Self { proto, body }
    }
}

impl ASTExpr for NumberExprAST {

}

impl ASTExpr for VariableExprAST {

}

impl ASTExpr for BinaryExprAST {

}

impl ASTExpr for CallExprAST {

}

impl ASTExpr for PrototypeAST {

}

impl ASTExpr for FunctionAST {

}

impl ASTExpr for AstNode {

}

} // verus!
