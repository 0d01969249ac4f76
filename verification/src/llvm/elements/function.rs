//! Function definitions of the LLVM back end.
use vstd::prelude::*;
use crate::cli::Error;
use crate::cli::errors::is_error_with;
use crate::irgen::errors::expected_got_text;
use crate::irgen::types as ir;
use crate::irgen::utils::{
    arguments_from_node, arguments_node_ok, expected_got_type_error, arguments_result, identifier_from_node,
    identifier_result, type_from_node, type_node_ok, type_result,
};
use crate::llvm::types::{DataType, NonPtrType, datatype_text};
use crate::parser::ParseTreeNode;

verus! {

/// The raw type of the LLVM back end for a raw type read from the source.
pub open spec fn llvm_raw_type(t: ir::NonPtrType) -> NonPtrType {
    match t {
        ir::NonPtrType::I8 => NonPtrType::I8,
        ir::NonPtrType::U8 => NonPtrType::U8,
        ir::NonPtrType::I16 => NonPtrType::I16,
        ir::NonPtrType::U16 => NonPtrType::U16,
        ir::NonPtrType::I32 => NonPtrType::I32,
        ir::NonPtrType::U32 => NonPtrType::U32,
        ir::NonPtrType::I64 => NonPtrType::I64,
        ir::NonPtrType::U64 => NonPtrType::U64,
        ir::NonPtrType::Void => NonPtrType::Void,
        ir::NonPtrType::Bool => NonPtrType::Bool,
        ir::NonPtrType::Unknown => NonPtrType::Unknown,
    }
}

/// The data type of the LLVM back end for a data type read from the source:
/// the same raw type and pointer depth.
pub open spec fn llvm_type(d: ir::DataType) -> DataType {
    DataType { raw_type: llvm_raw_type(d.raw_type), num_ptr: d.num_ptr }
}

fn to_llvm_type(d: ir::DataType) -> (r: DataType)
    ensures
        r == llvm_type(d),
{
    let raw = match d.raw_type {
        ir::NonPtrType::I8 => NonPtrType::I8,
        ir::NonPtrType::U8 => NonPtrType::U8,
        ir::NonPtrType::I16 => NonPtrType::I16,
        ir::NonPtrType::U16 => NonPtrType::U16,
        ir::NonPtrType::I32 => NonPtrType::I32,
        ir::NonPtrType::U32 => NonPtrType::U32,
        ir::NonPtrType::I64 => NonPtrType::I64,
        ir::NonPtrType::U64 => NonPtrType::U64,
        ir::NonPtrType::Void => NonPtrType::Void,
        ir::NonPtrType::Bool => NonPtrType::Bool,
        ir::NonPtrType::Unknown => NonPtrType::Unknown,
    };
    DataType::new(raw, d.num_ptr)
}

#[derive(Debug)]
pub struct Function {
    name: String,
    return_type: DataType,
    arguments: Vec<(String, DataType)>,
}

/// The mathematical value of a [`Function`].
pub struct FunctionV {
    pub name: Seq<char>,
    pub return_type: DataType,
    pub arguments: Seq<(Seq<char>, DataType)>,
}

impl View for Function {
    type V = FunctionV;

    closed spec fn view(&self) -> FunctionV {
        FunctionV {
            name: self.name@,
            return_type: self.return_type,
            arguments: self.arguments.deep_view(),
        }
    }
}

/// A function node has its return type, name and arguments, well shaped.
pub open spec fn function_node_ok(node: ParseTreeNode) -> bool {
    node is Function ==> {
        let c = node->Function_0@;
        c.len() >= 3 && type_node_ok(c[0]) && arguments_node_ok(c[2])
    }
}

/// The function a node defines, or the message of the error it causes: the
/// name is read first, then the return type, then the arguments.
pub open spec fn function_result(node: ParseTreeNode) -> Result<FunctionV, Seq<char>> {
    match node {
        ParseTreeNode::Function(children) => match identifier_result(children@[1]) {
            Err(m) => Err(m),
            Ok(name) => match type_result(children@[0]) {
                Err(m) => Err(m),
                Ok(t) => match arguments_result(children@[2]) {
                    Err(m) => Err(m),
                    Ok(args) => Ok(
                        FunctionV {
                            name,
                            return_type: llvm_type(t),
                            arguments: args.map_values(
                                |a: (Seq<char>, ir::DataType)| (a.0, llvm_type(a.1)),
                            ),
                        },
                    ),
                },
            },
        },
        other => Err(expected_got_text("Function"@, other)),
    }
}

/// The text of the argument list: `type %name` pairs separated by `, `.
pub open spec fn arguments_text(args: Seq<(Seq<char>, DataType)>) -> Seq<char>
    decreases args.len(),
{
    if args.len() == 0 {
        Seq::empty()
    } else if args.len() == 1 {
        datatype_text(args[0].1) + " %"@ + args[0].0
    } else {
        arguments_text(args.drop_last()) + ", "@ + datatype_text(args.last().1) + " %"@
            + args.last().0
    }
}

/// The text of a function definition: its header, then an empty body.
pub open spec fn function_text(f: FunctionV) -> Seq<char> {
    "define "@ + datatype_text(f.return_type) + " @"@ + f.name + "("@ + arguments_text(f.arguments)
        + ")\n{\n}\n"@
}

impl Function {
    pub fn new(name: String, return_type: DataType, arguments: Vec<(String, DataType)>) -> (f: Self)
        ensures
            f@ == (FunctionV { name: name@, return_type, arguments: arguments.deep_view() }),
    {
        Self { name, return_type, arguments }
    }

    /// The function a parse tree node defines.
    pub fn from_parse_tree_node(node: ParseTreeNode) -> (r: Result<Self, Error>)
        requires
            function_node_ok(node),
        ensures
            match function_result(node) {
                Ok(f) => r is Ok && r->Ok_0@ == f,
                Err(m) => is_error_with(r, m),
            },
    {
        Self::from_node(&node)
    }

    /// The function a parse tree node defines, the node seen by reference.
    pub(crate) fn from_node(node: &ParseTreeNode) -> (r: Result<Self, Error>)
        requires
            function_node_ok(*node),
        ensures
            match function_result(*node) {
                Ok(f) => r is Ok && r->Ok_0@ == f,
                Err(m) => is_error_with(r, m),
            },
    {
        match node {
            ParseTreeNode::Function(children) => {
                let name = identifier_from_node(&children[1])?;
                let t = type_from_node(&children[0])?;
                let args = arguments_from_node(&children[2])?;
                let ghost av = args.deep_view();
                let mut converted: Vec<(String, DataType)> = Vec::new();
                let mut i: usize = 0;
                while i < args.len()
                    invariant
                        i <= args.len(),
                        av == args.deep_view(),
                        converted.deep_view() == av.take(i as int).map_values(
                            |a: (Seq<char>, ir::DataType)| (a.0, llvm_type(a.1)),
                        ),
                    decreases args.len() - i,
                {
                    let ghost before = converted.deep_view();
                    let entry = (args[i].0.clone(), to_llvm_type(args[i].1));
                    converted.push(entry);
                    assert(av[i as int] == (args@[i as int].0@, args@[i as int].1));
                    assert(converted.deep_view() =~= before.push(
                        (av[i as int].0, llvm_type(av[i as int].1)),
                    ));
                    assert(converted.deep_view() =~= av.take(i + 1).map_values(
                        |a: (Seq<char>, ir::DataType)| (a.0, llvm_type(a.1)),
                    ));
                    i = i + 1;
                }
                assert(av.take(args.len() as int) =~= av);
                Ok(Function::new(name, to_llvm_type(t), converted))
            },
            _ => expected_got_type_error("Function", node),
        }
    }

    /// The text of the definition: `define <type> @<name>(<type> %<arg>, ...)`,
    /// then an empty body.
    pub fn render(&self) -> (s: String)
        ensures
            s@ == function_text(self@),
    {
        let mut s = String::from_str("define ");
        self.return_type.append_to(&mut s);
        s.append(" @");
        s.append(self.name.as_str());
        s.append("(");
        let ghost head = s@;
        let ghost args = self.arguments.deep_view();
        let mut i: usize = 0;
        while i < self.arguments.len()
            invariant
                i <= self.arguments.len(),
                args == self.arguments.deep_view(),
                s@ == head + arguments_text(args.take(i as int)),
            decreases self.arguments.len() - i,
        {
            let ghost before = s@;
            proof {
                assert(args.take(i + 1).drop_last() =~= args.take(i as int));
                assert(args[i as int] == (self.arguments@[i as int].0@, self.arguments@[i as int].1));
            }
            if i > 0 {
                s.append(", ");
            }
            self.arguments[i].1.append_to(&mut s);
            s.append(" %");
            s.append(self.arguments[i].0.as_str());
            proof {
                if i == 0 {
                    assert(args.take(0) =~= Seq::<(Seq<char>, DataType)>::empty());
                    assert(s@ =~= head + arguments_text(args.take(1)));
                } else {
                    assert(s@ =~= head + arguments_text(args.take(i + 1)));
                }
            }
            i = i + 1;
        }
        assert(args.take(self.arguments.len() as int) =~= args);
        s.append(")\n{\n}\n");
        assert(s@ =~= function_text(self@));
        s
    }
}

} // verus!
