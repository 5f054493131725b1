//! Text of the module file for a new traversal model.

use vstd::prelude::*;
use vstd::string::StringExecFns;

verus! {

/// What a new traversal model is generated with, beyond the files that
/// every model has.
#[derive(Clone, Copy, Debug, PartialEq, Eq, Structural, Hash)]
pub enum TraversalExtensions {
    /// Files for a typed configuration and typed query parameters.
    TypedConfig,
    /// The files of `TypedConfig`, and a file for an engine.
    TypedConfigAndEngine,
}

impl TraversalExtensions {
    /// Whether the extensions ask for a typed configuration: any does.
    pub fn typed_config(extensions: Option<TraversalExtensions>) -> (b: bool)
        ensures
            b == extensions is Some,
    {
        extensions.is_some()
    }

    /// Whether the extensions ask for an engine.
    pub fn engine(extensions: Option<TraversalExtensions>) -> (b: bool)
        ensures
            b == (extensions == Some(TraversalExtensions::TypedConfigAndEngine)),
    {
        match extensions {
            Some(TraversalExtensions::TypedConfigAndEngine) => true,
            _ => false,
        }
    }
}

/// The number of files that a module can have.
pub const FILES: usize = 6;

/// The name of file `i` of a module, in alphabetical order.
pub open spec fn file_name(i: int) -> Seq<char> {
    if i == 0 {
        "builder"@
    } else if i == 1 {
        "config"@
    } else if i == 2 {
        "engine"@
    } else if i == 3 {
        "model"@
    } else if i == 4 {
        "params"@
    } else {
        "service"@
    }
}

/// The ending of the name of the type that file `i` holds: the name of the
/// file with a capital letter.
pub open spec fn type_ending(i: int) -> Seq<char> {
    if i == 0 {
        "Builder"@
    } else if i == 1 {
        "Config"@
    } else if i == 2 {
        "Engine"@
    } else if i == 3 {
        "Model"@
    } else if i == 4 {
        "Params"@
    } else {
        "Service"@
    }
}

/// Whether a module has file `i`: every module has a builder, a model and
/// a service; a typed configuration adds the configuration and the
/// parameters, an engine the engine.
pub open spec fn has_file(i: int, typed_config: bool, engine: bool) -> bool {
    if i == 1 || i == 4 {
        typed_config
    } else if i == 2 {
        engine
    } else {
        0 <= i < FILES
    }
}

/// The row that declares file `i` as a module.
pub open spec fn module_row(i: int) -> Seq<char> {
    "mod "@ + file_name(i) + ";\n"@
}

/// The row that makes the type of file `i` public: the type is called by
/// the name of the model and the ending of the file.
pub open spec fn type_row(name: Seq<char>, i: int) -> Seq<char> {
    "pub use "@ + file_name(i) + "::"@ + name + type_ending(i) + ";\n"@
}

/// The rows that declare the first `k` files, as far as the module has
/// them.
pub open spec fn module_rows(typed_config: bool, engine: bool, k: nat) -> Seq<char>
    decreases k,
{
    if k == 0 {
        Seq::empty()
    } else if has_file(k - 1, typed_config, engine) {
        module_rows(typed_config, engine, (k - 1) as nat) + module_row(k - 1)
    } else {
        module_rows(typed_config, engine, (k - 1) as nat)
    }
}

/// The rows that make the types of the first `k` files public, as far as
/// the module has them.
pub open spec fn type_rows(name: Seq<char>, typed_config: bool, engine: bool, k: nat) -> Seq<char>
    decreases k,
{
    if k == 0 {
        Seq::empty()
    } else if has_file(k - 1, typed_config, engine) {
        type_rows(name, typed_config, engine, (k - 1) as nat) + type_row(name, k - 1)
    } else {
        type_rows(name, typed_config, engine, (k - 1) as nat)
    }
}

/// The text of the module file: one row for each file, in alphabetical
/// order, an empty row, and one row for the type of each file.
pub open spec fn module_text(name: Seq<char>, typed_config: bool, engine: bool) -> Seq<char> {
    module_rows(typed_config, engine, FILES as nat) + "\n"@ + type_rows(
        name,
        typed_config,
        engine,
        FILES as nat,
    )
}

/// The name of file `i` and the ending of the name of its type.
pub fn file_of(i: usize) -> (r: (&'static str, &'static str))
    requires
        i < FILES,
    ensures
        r.0@ == file_name(i as int),
        r.1@ == type_ending(i as int),
{
    if i == 0 {
        ("builder", "Builder")
    } else if i == 1 {
        ("config", "Config")
    } else if i == 2 {
        ("engine", "Engine")
    } else if i == 3 {
        ("model", "Model")
    } else if i == 4 {
        ("params", "Params")
    } else {
        ("service", "Service")
    }
}

/// Computes [`has_file`].
pub fn includes(i: usize, typed_config: bool, engine: bool) -> (b: bool)
    requires
        i < FILES,
    ensures
        b == has_file(i as int, typed_config, engine),
{
    if i == 1 || i == 4 {
        typed_config
    } else if i == 2 {
        engine
    } else {
        true
    }
}

/// The text of the module file of a new traversal model called
/// `pascal_case_name`: each file of the module is declared, in alphabetical
/// order, and after an empty row the type of each file is made public under
/// the name of the model followed by the name of the file with a capital
/// letter.
pub fn mod_template(pascal_case_name: &str, typed_config: bool, engine: bool) -> (text: String)
    ensures
        text@ == module_text(pascal_case_name@, typed_config, engine),
{
    let ghost name = pascal_case_name@;
    let mut text = String::new();
    let mut i: usize = 0;
    while i < FILES
        invariant
            i <= FILES,
            text@ == module_rows(typed_config, engine, i as nat),
        decreases FILES - i,
    {
        if includes(i, typed_config, engine) {
            let ghost before = text@;
            let file = file_of(i);
            text.append("mod ");
            text.append(file.0);
            text.append(";\n");
            assert(text@ =~= before + module_row(i as int));
        }
        i += 1;
    }
    let ghost head = text@;
    text.append("\n");
    let mut k: usize = 0;
    assert(text@ =~= head + "\n"@ + type_rows(name, typed_config, engine, 0));
    while k < FILES
        invariant
            k <= FILES,
            name == pascal_case_name@,
            text@ == head + "\n"@ + type_rows(name, typed_config, engine, k as nat),
        decreases FILES - k,
    {
        if includes(k, typed_config, engine) {
            let ghost before = type_rows(name, typed_config, engine, k as nat);
            let file = file_of(k);
            text.append("pub use ");
            text.append(file.0);
            text.append("::");
            text.append(pascal_case_name);
            text.append(file.1);
            text.append(";\n");
            assert(text@ =~= head + "\n"@ + (before + type_row(name, k as int)));
        }
        k += 1;
    }
    text
}

/// The ending of the name of a type is the name of its file with the first
/// letter as a capital.
pub proof fn lemma_type_ending(i: int)
    requires
        0 <= i < FILES,
    ensures
        type_ending(i).len() == file_name(i).len(),
        type_ending(i)[0] as int == file_name(i)[0] as int - 32,
        type_ending(i).skip(1) == file_name(i).skip(1),
{
    reveal_strlit("builder");
    reveal_strlit("config");
    reveal_strlit("engine");
    reveal_strlit("model");
    reveal_strlit("params");
    reveal_strlit("service");
    reveal_strlit("Builder");
    reveal_strlit("Config");
    reveal_strlit("Engine");
    reveal_strlit("Model");
    reveal_strlit("Params");
    reveal_strlit("Service");
    assert(type_ending(i).skip(1) =~= file_name(i).skip(1));
}

/// A model without extensions has three files, and its module file reads
/// accordingly.
pub proof fn lemma_plain_module(name: Seq<char>)
    ensures
        module_text(name, false, false) == module_row(0) + module_row(3) + module_row(5) + "\n"@
            + type_row(name, 0) + type_row(name, 3) + type_row(name, 5),
{
    reveal_with_fuel(module_rows, 7);
    reveal_with_fuel(type_rows, 7);
    assert(module_text(name, false, false) =~= module_row(0) + module_row(3) + module_row(5)
        + "\n"@ + type_row(name, 0) + type_row(name, 3) + type_row(name, 5));
}

} // verus!
