//! The methods of a file value.

use vstd::prelude::*;
use vstd::string::{StrSliceExecFns, StringExecFns};
use crate::command::{
    Argument, Command, ExecutionContext, OutputType, check_len, string, file_of,
    wrong_argument_count,
};
use crate::errors::{CrushResult, ErrorKind, fails_with, send_message};
use crate::text::strings_view;
use crate::value::{Struct, Value, ValueType, ValueView, StructView};

verus! {

/// What is known of a file, as plain values.
#[derive(Debug, Clone, Copy, PartialEq, Eq, Structural)]
pub struct FileMetadata {
    pub is_directory: bool,
    pub is_file: bool,
    pub is_symlink: bool,
    pub inode: u64,
    pub nlink: u64,
    pub mode: u32,
    pub len: u64,
}

/// The path that `sub` names in the directory `base`: `sub` itself where
/// it starts at the root; else `base` and `sub`, with a `/` between them
/// unless `base` is empty or ends in one.
pub open spec fn joined_path(base: Seq<char>, sub: Seq<char>) -> Seq<char> {
    if sub.len() > 0 && sub[0] == '/' {
        sub
    } else if base.len() == 0 || base[base.len() - 1] == '/' {
        base + sub
    } else {
        base + seq!['/'] + sub
    }
}

/// The path that `sub` names in the directory `base`.
pub fn join_path(base: &str, sub: &str) -> (r: String)
    ensures
        r@ == joined_path(base@, sub@),
{
    if sub.unicode_len() > 0 && sub.get_char(0) == '/' {
        return sub.to_string();
    }
    let mut path = base.to_string();
    let len = base.unicode_len();
    if len > 0 && base.get_char(len - 1) != '/' {
        proof {
            reveal_strlit("/");
            assert("/"@ =~= seq!['/']);
        }
        path.append("/");
    }
    path.append(sub);
    path
}

/// The full path of the method `name` of a file.
pub fn full(name: &str) -> (r: Vec<String>)
    ensures
        strings_view(&r) == seq!["global"@, "types"@, "file"@, name@],
{
    let mut path: Vec<String> = Vec::new();
    path.push("global".to_string());
    path.push("types".to_string());
    path.push("file".to_string());
    path.push(name.to_string());
    assert(strings_view(&path) =~= seq!["global"@, "types"@, "file"@, name@]);
    path
}

/// The methods of a file, in the order in which they are declared: `stat`,
/// `exists` and `__getitem__`.
pub fn methods() -> (r: Vec<Command>)
    ensures
        r.len() == 3,
        strings_view(&r[0].path) == seq!["global"@, "types"@, "file"@, "stat"@],
        strings_view(&r[1].path) == seq!["global"@, "types"@, "file"@, "exists"@],
        strings_view(&r[2].path) == seq!["global"@, "types"@, "file"@, "__getitem__"@],
        r[0].output is Unknown,
        r[1].output matches OutputType::Known(t) && t is Bool,
        r[2].output matches OutputType::Known(t) && t is File,
        forall|i: int| 0 <= i < 3 ==> (#[trigger] r[i]).can_block,
{
    let mut res: Vec<Command> = Vec::new();
    res.push(
        Command {
            path: full("stat"),
            can_block: true,
            signature: "file:stat".to_string(),
            short_help: "Return a struct with information about a file.".to_string(),
            long_help: Some(
                "    The return value contains the following fields:\n\n    * is_directory:bool is the file is a directory\n    * is_file:bool is the file a regular file\n    * is_symlink:bool is the file a symbolic link\n    * inode:integer the inode number of the file\n    * nlink:integer the number of hardlinks to the file\n    * mode:integer the permission bits for the file\n    * len: integer the size of the file".to_string(),
            ),
            output: OutputType::Unknown,
        },
    );
    res.push(
        Command {
            path: full("exists"),
            can_block: true,
            signature: "file:exists".to_string(),
            short_help: "Return true if this file exists".to_string(),
            long_help: None,
            output: OutputType::Known(ValueType::Bool),
        },
    );
    res.push(
        Command {
            path: full("__getitem__"),
            can_block: true,
            signature: "file[name:string]".to_string(),
            short_help: "Return a file or subdirectory in the specified base directory".to_string(),
            long_help: None,
            output: OutputType::Known(ValueType::File),
        },
    );
    res
}

/// The struct that `stat` gives for a file with the given metadata.
pub open spec fn stat_view(m: FileMetadata) -> ValueView {
    ValueView::Struct(
        StructView {
            fields: seq![
                ("is_directory"@, ValueView::Bool(m.is_directory)),
                ("is_file"@, ValueView::Bool(m.is_file)),
                ("is_symlink"@, ValueView::Bool(m.is_symlink)),
                ("inode"@, ValueView::Integer(m.inode as int)),
                ("nlink"@, ValueView::Integer(m.nlink as int)),
                ("mode"@, ValueView::Integer(m.mode as int)),
                ("len"@, ValueView::Integer(m.len as int)),
            ],
            parent: None,
        },
    )
}

/// The value that `stat` sends: a struct of the seven facts, once the
/// receiver of the call is known to be a file.
pub fn stat_value(this: &Option<Value>, metadata: FileMetadata) -> (r: CrushResult<Value>)
    ensures
        match r {
            Ok(v) => (*this matches Some(t) && t@ is File) && v@ == stat_view(metadata),
            Err(_) => !(*this matches Some(t) && t@ is File) && fails_with(r, ErrorKind::Argument, "Expected a file"@),
        },
{
    match file_of(this) {
        Err(e) => Err(e),
        Ok(_) => {
            let mut fields: Vec<(String, Value)> = Vec::new();
            fields.push(("is_directory".to_string(), Value::Bool(metadata.is_directory)));
            fields.push(("is_file".to_string(), Value::Bool(metadata.is_file)));
            fields.push(("is_symlink".to_string(), Value::Bool(metadata.is_symlink)));
            fields.push(("inode".to_string(), Value::Integer(metadata.inode as i128)));
            fields.push(("nlink".to_string(), Value::Integer(metadata.nlink as i128)));
            fields.push(("mode".to_string(), Value::Integer(metadata.mode as i128)));
            fields.push(("len".to_string(), Value::Integer(metadata.len as i128)));
            proof {
                let fv = crate::value::fields_view(&fields);
                let want = stat_view(metadata)->Struct_0.fields;
                assert(fv.len() == 7);
                assert(fv[0] == want[0]);
                assert(fv[1] == want[1]);
                assert(fv[2] == want[2]);
                assert(fv[3] == want[3]);
                assert(fv[4] == want[4]);
                assert(fv[5] == want[5]);
                assert(fv[6] == want[6]);
                assert(fv =~= want);
            }
            let v = Value::Struct(Struct::new(fields, None));
            Ok(v)
        },
    }
}

/// Sends a struct with what is known of the file that the method was called
/// on. The metadata are read by the caller.
pub fn stat(context: ExecutionContext, metadata: FileMetadata) -> (r: CrushResult<()>)
    ensures
        !(context.this matches Some(t) && t@ is File) ==> fails_with(r, ErrorKind::Argument, "Expected a file"@),
        (context.this matches Some(t) && t@ is File) ==> (r is Err ==> fails_with(
            r,
            ErrorKind::Send,
            send_message(),
        )) && (context.output.is_black_hole() ==> r is Ok),
{
    match stat_value(&context.this, metadata) {
        Ok(v) => context.output.send(v),
        Err(e) => Err(e),
    }
}

/// The value that `exists` sends, once the receiver of the call is known to
/// be a file.
pub fn exists_value(this: &Option<Value>, found: bool) -> (r: CrushResult<Value>)
    ensures
        match r {
            Ok(v) => (*this matches Some(t) && t@ is File) && v@ == ValueView::Bool(found),
            Err(_) => !(*this matches Some(t) && t@ is File) && fails_with(r, ErrorKind::Argument, "Expected a file"@),
        },
{
    match file_of(this) {
        Err(e) => Err(e),
        Ok(_) => Ok(Value::Bool(found)),
    }
}

/// Sends whether the file that the method was called on exists. Whether it
/// does is found out by the caller.
pub fn file_exists(context: ExecutionContext, found: bool) -> (r: CrushResult<()>)
    ensures
        !(context.this matches Some(t) && t@ is File) ==> fails_with(r, ErrorKind::Argument, "Expected a file"@),
        (context.this matches Some(t) && t@ is File) ==> (r is Err ==> fails_with(
            r,
            ErrorKind::Send,
            send_message(),
        )) && (context.output.is_black_hole() ==> r is Ok),
{
    match exists_value(&context.this, found) {
        Ok(v) => context.output.send(v),
        Err(e) => Err(e),
    }
}

/// What `getitem` comes to before anything is sent: the file that the one
/// argument names in the directory that the method was called on, or the
/// fault of the call.
pub open spec fn getitem_spec(this: Option<Value>, arguments: Seq<Argument>) -> Result<ValueView, Seq<char>> {
    if !(this matches Some(t) && t@ is File) {
        Err("Expected a file"@)
    } else if arguments.len() != 1 {
        Err(wrong_argument_count())
    } else if !(arguments[0].value@ is Text) {
        Err("Expected a string"@)
    } else {
        Ok(ValueView::File(joined_path(this->0@->File_0, arguments[0].value@->Text_0)))
    }
}

/// The value that `getitem` sends.
pub fn getitem_value(this: &Option<Value>, arguments: &Vec<Argument>) -> (r: CrushResult<Value>)
    ensures
        match getitem_spec(*this, arguments@) {
            Ok(v) => r matches Ok(out) && out@ == v,
            Err(m) => fails_with(r, ErrorKind::Argument, m),
        },
{
    let base_directory = match file_of(this) {
        Ok(b) => b,
        Err(e) => {
            return Err(e);
        },
    };
    match check_len(arguments, 1) {
        Ok(_) => {},
        Err(e) => {
            return Err(e);
        },
    }
    let sub = match string(arguments, 0) {
        Ok(s) => s,
        Err(e) => {
            return Err(e);
        },
    };
    Ok(Value::File(join_path(base_directory.as_str(), sub.as_str())))
}

/// Sends the file or the subdirectory that the one argument names in the
/// directory that the method was called on.
pub fn getitem(context: ExecutionContext) -> (r: CrushResult<()>)
    ensures
        match getitem_spec(context.this, context.arguments@) {
            Ok(_) => (r is Err ==> fails_with(r, ErrorKind::Send, send_message())) && (
            context.output.is_black_hole() ==> r is Ok),
            Err(m) => fails_with(r, ErrorKind::Argument, m),
        },
{
    match getitem_value(&context.this, &context.arguments) {
        Ok(v) => context.output.send(v),
        Err(e) => Err(e),
    }
}

} // verus!
