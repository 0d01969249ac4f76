//! Helpers on values and types, and reading types, names and argument lists
//! from the parse tree.
use vstd::prelude::*;
use super::types::{DataType, NonPtrType};
use super::instruction::{Literal, Value, ValueV};
use super::function::value_type;
use super::errors::{compiler_error, compiler_error_text, expected_got_error, expected_got_text};
use crate::cli::Error;
use crate::cli::errors::is_error_with;
use crate::parser::ParseTreeNode;
use crate::text::str_eq;

verus! {

/// The type with its reference marker removed.
pub open spec fn correct_type_references_v(d: DataType) -> DataType {
    DataType { is_ref: false, ..d }
}

/// A literal of unknown type takes the given type (without reference); any
/// other value is unchanged.
pub open spec fn attempt_mutate_v(v: ValueV, t: DataType) -> ValueV {
    match v {
        ValueV::Literal(l) => if l.datatype.raw_type == NonPtrType::Unknown {
            ValueV::Literal(Literal { datatype: correct_type_references_v(t), ..l })
        } else {
            v
        },
        _ => v,
    }
}

/// A value whose type is not known: a label, or a literal or symbol of unknown type.
pub open spec fn has_unknown_v(v: ValueV) -> bool {
    match value_type(v) {
        Some(d) => d.raw_type == NonPtrType::Unknown,
        None => true,
    }
}

pub fn attempt_mutate_type(value: Value, new_type: DataType) -> (r: Value)
    ensures
        r@ == attempt_mutate_v(value@, new_type),
{
    match value {
        Value::Literal(literal) => {
            let mut lit = literal;
            if lit.datatype.raw_type == NonPtrType::Unknown {
                lit.datatype = correct_type_references(new_type);
            }
            Value::Literal(lit)
        },
        _ => value,
    }
}

pub fn get_value_type(value: &Value) -> (r: Option<DataType>)
    ensures
        r == value_type(value@),
{
    match value {
        Value::Literal(literal) => Some(literal.datatype),
        Value::Symbol(symbol) => Some(symbol.datatype),
        Value::Label(_) => None,
    }
}

pub fn has_unknown_type(value: &Value) -> (r: bool)
    ensures
        r == has_unknown_v(value@),
{
    match get_value_type(value) {
        Some(v) => v.raw_type == NonPtrType::Unknown,
        None => true,
    }
}

pub fn correct_type_references(datatype: DataType) -> (r: DataType)
    ensures
        r == correct_type_references_v(datatype),
{
    let mut result = datatype;
    result.is_ref = false;
    result
}

/// The raw type written `s`, if it is one of the type names.
pub open spec fn raw_type_named(s: Seq<char>) -> Option<NonPtrType> {
    if s == "i8"@ {
        Some(NonPtrType::I8)
    } else if s == "u8"@ {
        Some(NonPtrType::U8)
    } else if s == "i16"@ {
        Some(NonPtrType::I16)
    } else if s == "u16"@ {
        Some(NonPtrType::U16)
    } else if s == "i32"@ {
        Some(NonPtrType::I32)
    } else if s == "u32"@ {
        Some(NonPtrType::U32)
    } else if s == "i64"@ {
        Some(NonPtrType::I64)
    } else if s == "u64"@ {
        Some(NonPtrType::U64)
    } else if s == "void"@ {
        Some(NonPtrType::Void)
    } else {
        None
    }
}

fn raw_type_from_name(s: &String) -> (r: Option<NonPtrType>)
    ensures
        r == raw_type_named(s@),
{
    if str_eq(s.as_str(), "i8") {
        Some(NonPtrType::I8)
    } else if str_eq(s.as_str(), "u8") {
        Some(NonPtrType::U8)
    } else if str_eq(s.as_str(), "i16") {
        Some(NonPtrType::I16)
    } else if str_eq(s.as_str(), "u16") {
        Some(NonPtrType::U16)
    } else if str_eq(s.as_str(), "i32") {
        Some(NonPtrType::I32)
    } else if str_eq(s.as_str(), "u32") {
        Some(NonPtrType::U32)
    } else if str_eq(s.as_str(), "i64") {
        Some(NonPtrType::I64)
    } else if str_eq(s.as_str(), "u64") {
        Some(NonPtrType::U64)
    } else if str_eq(s.as_str(), "void") {
        Some(NonPtrType::Void)
    } else {
        None
    }
}

/// A type node has at least its raw type.
pub open spec fn type_node_ok(node: ParseTreeNode) -> bool {
    node is Type ==> node->Type_0@.len() > 0
}

/// The type a type node denotes, or the message of the error it causes:
/// the raw type with one pointer level per further child.
pub open spec fn type_result(node: ParseTreeNode) -> Result<DataType, Seq<char>> {
    match node {
        ParseTreeNode::Type(children) => match children@[0] {
            ParseTreeNode::RawType(token) => match raw_type_named(token.data@) {
                Some(t) => Ok(
                    DataType { raw_type: t, num_ptr: (children@.len() - 1) as usize, is_ref: false },
                ),
                None => Err(compiler_error_text("Bad type, '"@ + token.data@ + "'"@)),
            },
            other => Err(expected_got_text("Type"@, other)),
        },
        other => Err(expected_got_text("Type"@, other)),
    }
}

/// `r` holds what `s` describes: the same value, or an error with the same message.
pub open spec fn result_matches<T>(r: Result<T, Error>, s: Result<T, Seq<char>>) -> bool {
    match s {
        Ok(v) => r == Ok::<T, Error>(v),
        Err(m) => is_error_with(r, m),
    }
}

pub fn type_from_parse_tree(node: ParseTreeNode) -> (r: Result<DataType, Error>)
    requires
        type_node_ok(node),
    ensures
        result_matches(r, type_result(node)),
{
    type_from_node(&node)
}

pub(crate) fn type_from_node(node: &ParseTreeNode) -> (r: Result<DataType, Error>)
    requires
        type_node_ok(*node),
    ensures
        result_matches(r, type_result(*node)),
{
    match node {
        ParseTreeNode::Type(children) => {
            let non_ptr = match &children[0] {
                ParseTreeNode::RawType(token) => {
                    match raw_type_from_name(&token.data) {
                        Some(t) => t,
                        None => {
                            let mut text = String::from_str("Bad type, '");
                            text.append(token.data.as_str());
                            text.append("'");
                            return compiler_error(text);
                        },
                    }
                },
                _ => {
                    return expected_got_type_error("Type", &children[0]);
                },
            };
            Ok(DataType::new(non_ptr, children.len() - 1, false))
        },
        _ => expected_got_type_error("Type", node),
    }
}

/// An "expected ..., got ..." error for a node seen by reference.
pub fn expected_got_type_error<T>(expected: &str, got: &ParseTreeNode) -> (r: Result<T, Error>)
    ensures
        is_error_with(r, expected_got_text(expected@, *got)),
{
    let name = got.variant_name();
    let mut text = String::from_str("Expected ");
    text.append(expected);
    text.append(", got ");
    text.append(name.as_str());
    compiler_error(text)
}

/// The name an identifier node holds, or the message of the error it causes.
pub open spec fn identifier_result(node: ParseTreeNode) -> Result<Seq<char>, Seq<char>> {
    match node {
        ParseTreeNode::Identifier(token) => Ok(token.data@),
        other => Err(expected_got_text("Identifier"@, other)),
    }
}

pub fn identifier_from_parse_tree(node: ParseTreeNode) -> (r: Result<String, Error>)
    ensures
        match identifier_result(node) {
            Ok(s) => r is Ok && r->Ok_0@ == s,
            Err(m) => is_error_with(r, m),
        },
{
    identifier_from_node(&node)
}

pub(crate) fn identifier_from_node(node: &ParseTreeNode) -> (r: Result<String, Error>)
    ensures
        match identifier_result(*node) {
            Ok(s) => r is Ok && r->Ok_0@ == s,
            Err(m) => is_error_with(r, m),
        },
{
    match node {
        ParseTreeNode::Identifier(token) => Ok(token.data.clone()),
        _ => expected_got_type_error("Identifier", node),
    }
}

/// An argument node names its type and its identifier.
pub open spec fn argument_node_ok(node: ParseTreeNode) -> bool {
    node is Argument ==> node->Argument_0@.len() >= 2 && type_node_ok(node->Argument_0@[0])
}

/// Every argument of an argument list is well-shaped.
pub open spec fn arguments_node_ok(node: ParseTreeNode) -> bool {
    node is Arguments ==> forall|i: int|
        0 <= i < node->Arguments_0@.len() ==> argument_node_ok(#[trigger] node->Arguments_0@[i])
}

/// The name and type of one argument, or the message of the error it causes
/// (the name is read first).
pub open spec fn argument_result(node: ParseTreeNode) -> Result<(Seq<char>, DataType), Seq<char>> {
    match node {
        ParseTreeNode::Argument(vals) => match identifier_result(vals@[1]) {
            Err(m) => Err(m),
            Ok(name) => match type_result(vals@[0]) {
                Err(m) => Err(m),
                Ok(t) => Ok((name, t)),
            },
        },
        other => Err(expected_got_text("Argument"@, other)),
    }
}

/// The arguments of the first `n` children, or the first error.
pub open spec fn arguments_prefix(children: Seq<ParseTreeNode>, n: int) -> Result<
    Seq<(Seq<char>, DataType)>,
    Seq<char>,
>
    decreases n,
{
    if n <= 0 {
        Ok(Seq::empty())
    } else {
        match arguments_prefix(children, n - 1) {
            Err(m) => Err(m),
            Ok(acc) => match argument_result(children[n - 1]) {
                Err(m) => Err(m),
                Ok(a) => Ok(acc.push(a)),
            },
        }
    }
}

proof fn lemma_arguments_prefix_err(children: Seq<ParseTreeNode>, k: int, n: int)
    requires
        0 <= k <= n,
        arguments_prefix(children, k) is Err,
    ensures
        arguments_prefix(children, n) == arguments_prefix(children, k),
    decreases n - k,
{
    if n > k {
        lemma_arguments_prefix_err(children, k, n - 1);
    }
}

/// The argument list a node denotes, or the message of the error it causes.
pub open spec fn arguments_result(node: ParseTreeNode) -> Result<
    Seq<(Seq<char>, DataType)>,
    Seq<char>,
> {
    match node {
        ParseTreeNode::Empty => Ok(Seq::empty()),
        ParseTreeNode::Arguments(children) => arguments_prefix(children@, children@.len() as int),
        other => Err(expected_got_text("Arguments or Empty"@, other)),
    }
}

pub fn arguments_from_parse_tree(node: ParseTreeNode) -> (r: Result<Vec<(String, DataType)>, Error>)
    requires
        arguments_node_ok(node),
    ensures
        match arguments_result(node) {
            Ok(a) => r is Ok && r->Ok_0.deep_view() == a,
            Err(m) => is_error_with(r, m),
        },
{
    arguments_from_node(&node)
}

pub fn arguments_from_node(node: &ParseTreeNode) -> (r: Result<Vec<(String, DataType)>, Error>)
    requires
        arguments_node_ok(*node),
    ensures
        match arguments_result(*node) {
            Ok(a) => r is Ok && r->Ok_0.deep_view() == a,
            Err(m) => is_error_with(r, m),
        },
{
    match node {
        ParseTreeNode::Empty => {
            let v: Vec<(String, DataType)> = Vec::new();
            assert(v.deep_view() =~= Seq::<(Seq<char>, DataType)>::empty());
            Ok(v)
        },
        ParseTreeNode::Arguments(children) => {
            let mut result: Vec<(String, DataType)> = Vec::new();
            let mut i: usize = 0;
            assert(result.deep_view() =~= Seq::<(Seq<char>, DataType)>::empty());
            while i < children.len()
                invariant
                    i <= children.len(),
                    arguments_node_ok(*node),
                    *node == ParseTreeNode::Arguments(*children),
                    arguments_prefix(children@, i as int) == Ok::<
                        Seq<(Seq<char>, DataType)>,
                        Seq<char>,
                    >(result.deep_view()),
                decreases children.len() - i,
            {
                let child = &children[i];
                assert(argument_node_ok(children@[i as int]));
                match child {
                    ParseTreeNode::Argument(arg_vals) => {
                        let name = match identifier_from_node(&arg_vals[1]) {
                            Ok(n) => n,
                            Err(e) => {
                                proof {
                                    lemma_arguments_prefix_err(children@, i + 1, children@.len() as int);
                                }
                                return Err(e);
                            },
                        };
                        let t = match type_from_node(&arg_vals[0]) {
                            Ok(t) => t,
                            Err(e) => {
                                proof {
                                    lemma_arguments_prefix_err(children@, i + 1, children@.len() as int);
                                }
                                return Err(e);
                            },
                        };
                        let ghost before = result.deep_view();
                        result.push((name, t));
                        assert(result.deep_view() =~= before.push((name@, t)));
                    },
                    _ => {
                        proof {
                            lemma_arguments_prefix_err(children@, i + 1, children@.len() as int);
                        }
                        return expected_got_type_error("Argument", child);
                    },
                }
                i = i + 1;
            }
            Ok(result)
        },
        _ => expected_got_type_error("Arguments or Empty", node),
    }
}

} // verus!
