//! The init phases of a topology and where their code is generated.
//!
//! The C++ code generator splices the code of an init specifier into the generated
//! file of a topology. The phase of the specifier decides which file that is, in
//! which namespace or function the code lands, and when it runs.

use vstd::prelude::*;

verus! {

/// Which generated file a phase is emitted into.
#[derive(Debug, Clone, Copy, PartialEq, Eq, Structural)]
pub enum GeneratedFile {
    Hpp,
    Cpp,
}

impl GeneratedFile {
    /// The extension of the file's name.
    pub open spec fn extension_text(self) -> Seq<char> {
        match self {
            GeneratedFile::Hpp => "hpp"@,
            GeneratedFile::Cpp => "cpp"@,
        }
    }

    /// The extension of a header is `hpp`, that of a source file `cpp`.
    pub proof fn law_extension_tells_the_file(self)
        ensures
            self is Hpp ==> self.extension_text() == "hpp"@,
            self is Cpp ==> self.extension_text() == "cpp"@,
    {
    }

    /// The extension of the file's name.
    pub fn extension(self) -> (r: &'static str)
        ensures
            r@ == self.extension_text(),
    {
        match self {
            GeneratedFile::Hpp => "hpp",
            GeneratedFile::Cpp => "cpp",
        }
    }
}

/// Where in the generated file the snippet of a phase lands.
#[derive(Debug, Clone, Copy, PartialEq, Eq)]
pub enum Placement {
    /// `namespace <Ns> { namespace <Instance> { <code> } }`
    Namespace(&'static str),
    /// Anonymous namespace holding the instance definitions.
    Instances,
    /// File-private helper function `void <phase>(<params>)`.
    Function(&'static str),
}

/// When the generated code runs.
#[derive(Debug, Clone, Copy, PartialEq, Eq, Structural)]
pub enum Stage {
    /// Static, file-scope declarations.
    Static,
    Setup,
    Teardown,
}

/// What is known of an init phase.
#[derive(Debug, Clone, Copy)]
pub struct PhaseInfo {
    pub name: &'static str,
    pub ordinal: i128,
    pub description: &'static str,
    pub default_code: &'static str,
    pub file: GeneratedFile,
    pub placement: Placement,
    pub stage: Stage,
}

/// For a phase without default code.
pub const NO_CODE: &'static str = "None.";

/// The parameters of a helper function that is given the state of the topology.
pub const STATE: &'static str = "const TopologyState& state";

/// Description of the phase `configConstants`.
pub const CONFIG_CONSTANTS_DESCRIPTION: &'static str = "C++ constants for use in constructing and initializing the instance.";

/// Description of the phase `configObjects`.
pub const CONFIG_OBJECTS_DESCRIPTION: &'static str = "Statically declared C++ objects for use in constructing and initializing the instance.";

/// Description of the phase `instances`.
pub const INSTANCES_DESCRIPTION: &'static str = "A constructor call for an instance that has a non-standard constructor format.";

/// Default code of the phase `instances`.
pub const INSTANCES_DEFAULT: &'static str = "The standard constructor call for the instance.";

/// Description of the phase `initComponents`.
pub const INIT_COMPONENTS_DESCRIPTION: &'static str = "Initialization code for an instance that has a non-standard initialization format.";

/// Default code of the phase `initComponents`.
pub const INIT_COMPONENTS_DEFAULT: &'static str = "The standard call to `init` for the instance.";

/// Description of the phase `configComponents`.
pub const CONFIG_COMPONENTS_DESCRIPTION: &'static str = "Implementation-specific configuration code for the instance.";

/// Description of the phase `regCommands`.
pub const REG_COMMANDS_DESCRIPTION: &'static str = "Code for registering the commands of the instance (if any) with the command dispatcher. Required only for a non-standard command registration format.";

/// Default code of the phase `regCommands`.
pub const REG_COMMANDS_DEFAULT: &'static str = "The standard call to `regCommands` if the instance has commands; otherwise none.";

/// Description of the phase `readParameters`.
pub const READ_PARAMETERS_DESCRIPTION: &'static str = "Code for reading parameters from a file. Ordinarily used only by the parameter database instance.";

/// Description of the phase `loadParameters`.
pub const LOAD_PARAMETERS_DESCRIPTION: &'static str = "Code for loading parameter values from the parameter database. Required only for a non-standard parameter-loading format.";

/// Default code of the phase `loadParameters`.
pub const LOAD_PARAMETERS_DEFAULT: &'static str = "The standard call to `loadParameters` if the instance has parameters; otherwise none.";

/// Description of the phase `startTasks`.
pub const START_TASKS_DESCRIPTION: &'static str = "Code for starting the task (if any) of the instance.";

/// Default code of the phase `startTasks`.
pub const START_TASKS_DEFAULT: &'static str = "The standard call to `start` if the instance is an active component; otherwise none.";

/// Description of the phase `stopTasks`.
pub const STOP_TASKS_DESCRIPTION: &'static str = "Code for stopping the task (if any) of the instance.";

/// Default code of the phase `stopTasks`.
pub const STOP_TASKS_DEFAULT: &'static str = "The standard call to `exit` if the instance is an active component; otherwise none.";

/// Description of the phase `freeThreads`.
pub const FREE_THREADS_DESCRIPTION: &'static str = "Code for freeing the thread associated with the instance.";

/// Default code of the phase `freeThreads`.
pub const FREE_THREADS_DEFAULT: &'static str = "The standard call to `join` if the instance is an active component; otherwise none.";

/// Description of the phase `tearDownComponents`.
pub const TEAR_DOWN_COMPONENTS_DESCRIPTION: &'static str = "Code for deallocating the allocated memory (if any) associated with the instance.";

/// Description of the phase `deinitComponents`.
pub const DEINIT_COMPONENTS_DESCRIPTION: &'static str = "Code for performing non-standard deinitialization on the instance, releasing resources acquired during `initComponents`.";

/// Default code of the phase `deinitComponents`.
pub const DEINIT_COMPONENTS_DEFAULT: &'static str = "The standard call to `deinit` for the instance.";

/// The init phases, in ordinal order.
pub open spec fn phase_table() -> Seq<PhaseInfo> {
    seq![
        PhaseInfo {
            name: "configConstants",
            ordinal: 0,
            description: CONFIG_CONSTANTS_DESCRIPTION,
            default_code: NO_CODE,
            file: GeneratedFile::Hpp,
            placement: Placement::Namespace("ConfigConstants"),
            stage: Stage::Static,
        },
        PhaseInfo {
            name: "configObjects",
            ordinal: 1,
            description: CONFIG_OBJECTS_DESCRIPTION,
            default_code: NO_CODE,
            file: GeneratedFile::Cpp,
            placement: Placement::Namespace("ConfigObjects"),
            stage: Stage::Static,
        },
        PhaseInfo {
            name: "instances",
            ordinal: 2,
            description: INSTANCES_DESCRIPTION,
            default_code: INSTANCES_DEFAULT,
            file: GeneratedFile::Cpp,
            placement: Placement::Instances,
            stage: Stage::Setup,
        },
        PhaseInfo {
            name: "initComponents",
            ordinal: 3,
            description: INIT_COMPONENTS_DESCRIPTION,
            default_code: INIT_COMPONENTS_DEFAULT,
            file: GeneratedFile::Cpp,
            placement: Placement::Function(STATE),
            stage: Stage::Setup,
        },
        PhaseInfo {
            name: "configComponents",
            ordinal: 4,
            description: CONFIG_COMPONENTS_DESCRIPTION,
            default_code: NO_CODE,
            file: GeneratedFile::Cpp,
            placement: Placement::Function(STATE),
            stage: Stage::Setup,
        },
        PhaseInfo {
            name: "regCommands",
            ordinal: 5,
            description: REG_COMMANDS_DESCRIPTION,
            default_code: REG_COMMANDS_DEFAULT,
            file: GeneratedFile::Cpp,
            placement: Placement::Function(""),
            stage: Stage::Setup,
        },
        PhaseInfo {
            name: "readParameters",
            ordinal: 6,
            description: READ_PARAMETERS_DESCRIPTION,
            default_code: NO_CODE,
            file: GeneratedFile::Cpp,
            placement: Placement::Function(""),
            stage: Stage::Setup,
        },
        PhaseInfo {
            name: "loadParameters",
            ordinal: 7,
            description: LOAD_PARAMETERS_DESCRIPTION,
            default_code: LOAD_PARAMETERS_DEFAULT,
            file: GeneratedFile::Cpp,
            placement: Placement::Function(""),
            stage: Stage::Setup,
        },
        PhaseInfo {
            name: "startTasks",
            ordinal: 8,
            description: START_TASKS_DESCRIPTION,
            default_code: START_TASKS_DEFAULT,
            file: GeneratedFile::Cpp,
            placement: Placement::Function(STATE),
            stage: Stage::Setup,
        },
        PhaseInfo {
            name: "stopTasks",
            ordinal: 9,
            description: STOP_TASKS_DESCRIPTION,
            default_code: STOP_TASKS_DEFAULT,
            file: GeneratedFile::Cpp,
            placement: Placement::Function(STATE),
            stage: Stage::Teardown,
        },
        PhaseInfo {
            name: "freeThreads",
            ordinal: 10,
            description: FREE_THREADS_DESCRIPTION,
            default_code: FREE_THREADS_DEFAULT,
            file: GeneratedFile::Cpp,
            placement: Placement::Function(STATE),
            stage: Stage::Teardown,
        },
        PhaseInfo {
            name: "tearDownComponents",
            ordinal: 11,
            description: TEAR_DOWN_COMPONENTS_DESCRIPTION,
            default_code: NO_CODE,
            file: GeneratedFile::Cpp,
            placement: Placement::Function(STATE),
            stage: Stage::Teardown,
        },
        PhaseInfo {
            name: "deinitComponents",
            ordinal: 12,
            description: DEINIT_COMPONENTS_DESCRIPTION,
            default_code: DEINIT_COMPONENTS_DEFAULT,
            file: GeneratedFile::Cpp,
            placement: Placement::Function(STATE),
            stage: Stage::Teardown,
        },
    ]
}

/// The phase of the given ordinal, if there is one.
pub open spec fn phase_of(ordinal: int) -> Option<PhaseInfo> {
    if 0 <= ordinal < phase_table().len() {
        Some(phase_table()[ordinal])
    } else {
        None
    }
}

/// Each phase stands in the table at its own ordinal, and there are thirteen of them.
pub proof fn law_table_in_ordinal_order()
    ensures
        phase_table().len() == 13,
        forall|i: int|
            0 <= i < phase_table().len() ==> (#[trigger] phase_table()[i]).ordinal == i,
{
}

/// A phase is known by its ordinal alone: the ordinals from 0 to 12 are those of a phase each,
/// and no other is.
pub proof fn law_phase_is_known_by_its_ordinal(ordinal: int)
    ensures
        phase_of(ordinal) is Some <==> 0 <= ordinal <= 12,
        phase_of(ordinal) matches Some(phase) ==> phase.ordinal == ordinal
            && phase_table().contains(phase),
        forall|k: int|
            0 <= k < phase_table().len() && (#[trigger] phase_table()[k]).ordinal == ordinal
                ==> phase_of(ordinal) == Some(phase_table()[k]),
{
    law_table_in_ordinal_order();
}

/// The phases in words, by ordinal: their names, what their code is for, and what code there is
/// without a specifier.
pub proof fn law_phases_in_words()
    ensures
        phase_table().map_values(|p: PhaseInfo| p.name@) == seq![
            "configConstants"@,
            "configObjects"@,
            "instances"@,
            "initComponents"@,
            "configComponents"@,
            "regCommands"@,
            "readParameters"@,
            "loadParameters"@,
            "startTasks"@,
            "stopTasks"@,
            "freeThreads"@,
            "tearDownComponents"@,
            "deinitComponents"@,
        ],
        phase_table().map_values(|p: PhaseInfo| p.description@) == seq![
            "C++ constants for use in constructing and initializing the instance."@,
            "Statically declared C++ objects for use in constructing and initializing the instance."@,
            "A constructor call for an instance that has a non-standard constructor format."@,
            "Initialization code for an instance that has a non-standard initialization format."@,
            "Implementation-specific configuration code for the instance."@,
            "Code for registering the commands of the instance (if any) with the command dispatcher. Required only for a non-standard command registration format."@,
            "Code for reading parameters from a file. Ordinarily used only by the parameter database instance."@,
            "Code for loading parameter values from the parameter database. Required only for a non-standard parameter-loading format."@,
            "Code for starting the task (if any) of the instance."@,
            "Code for stopping the task (if any) of the instance."@,
            "Code for freeing the thread associated with the instance."@,
            "Code for deallocating the allocated memory (if any) associated with the instance."@,
            "Code for performing non-standard deinitialization on the instance, releasing resources acquired during `initComponents`."@,
        ],
        phase_table().map_values(|p: PhaseInfo| p.default_code@) == seq![
            "None."@,
            "None."@,
            "The standard constructor call for the instance."@,
            "The standard call to `init` for the instance."@,
            "None."@,
            "The standard call to `regCommands` if the instance has commands; otherwise none."@,
            "None."@,
            "The standard call to `loadParameters` if the instance has parameters; otherwise none."@,
            "The standard call to `start` if the instance is an active component; otherwise none."@,
            "The standard call to `exit` if the instance is an active component; otherwise none."@,
            "The standard call to `join` if the instance is an active component; otherwise none."@,
            "None."@,
            "The standard call to `deinit` for the instance."@,
        ],
{
    assert(phase_table().map_values(|p: PhaseInfo| p.name@) =~= seq![
            "configConstants"@,
            "configObjects"@,
            "instances"@,
            "initComponents"@,
            "configComponents"@,
            "regCommands"@,
            "readParameters"@,
            "loadParameters"@,
            "startTasks"@,
            "stopTasks"@,
            "freeThreads"@,
            "tearDownComponents"@,
            "deinitComponents"@,
        ]);
    assert(phase_table().map_values(|p: PhaseInfo| p.description@) =~= seq![
            "C++ constants for use in constructing and initializing the instance."@,
            "Statically declared C++ objects for use in constructing and initializing the instance."@,
            "A constructor call for an instance that has a non-standard constructor format."@,
            "Initialization code for an instance that has a non-standard initialization format."@,
            "Implementation-specific configuration code for the instance."@,
            "Code for registering the commands of the instance (if any) with the command dispatcher. Required only for a non-standard command registration format."@,
            "Code for reading parameters from a file. Ordinarily used only by the parameter database instance."@,
            "Code for loading parameter values from the parameter database. Required only for a non-standard parameter-loading format."@,
            "Code for starting the task (if any) of the instance."@,
            "Code for stopping the task (if any) of the instance."@,
            "Code for freeing the thread associated with the instance."@,
            "Code for deallocating the allocated memory (if any) associated with the instance."@,
            "Code for performing non-standard deinitialization on the instance, releasing resources acquired during `initComponents`."@,
        ]);
    assert(phase_table().map_values(|p: PhaseInfo| p.default_code@) =~= seq![
            "None."@,
            "None."@,
            "The standard constructor call for the instance."@,
            "The standard call to `init` for the instance."@,
            "None."@,
            "The standard call to `regCommands` if the instance has commands; otherwise none."@,
            "None."@,
            "The standard call to `loadParameters` if the instance has parameters; otherwise none."@,
            "The standard call to `start` if the instance is an active component; otherwise none."@,
            "The standard call to `exit` if the instance is an active component; otherwise none."@,
            "The standard call to `join` if the instance is an active component; otherwise none."@,
            "None."@,
            "The standard call to `deinit` for the instance."@,
        ]);
}

/// The phases before `instances` are static, those from `stopTasks` on are of the teardown,
/// and those between them are of the setup. Constants are generated into the header, and all
/// else into the source file.
pub proof fn law_phases_run_in_order(ordinal: int)
    ensures
        phase_of(ordinal) matches Some(phase) ==> {
            &&& phase.stage is Static <==> ordinal < 2
            &&& phase.stage is Setup <==> 2 <= ordinal < 9
            &&& phase.stage is Teardown <==> 9 <= ordinal
            &&& phase.file is Hpp <==> ordinal == 0
            &&& phase.file is Cpp <==> ordinal != 0
        },
{
}

/// Constants and objects land in a namespace each, instances among the definitions, and the
/// code of the other phases in a helper function. That function is given the state of the
/// topology, unless it registers commands or handles parameters.
pub proof fn law_phases_have_their_places(ordinal: int)
    ensures
        phase_of(ordinal) matches Some(phase) ==> match phase.placement {
            Placement::Namespace(ns) => ordinal == 0 && ns@ == "ConfigConstants"@ || ordinal == 1
                && ns@ == "ConfigObjects"@,
            Placement::Instances => ordinal == 2,
            Placement::Function(params) => if 5 <= ordinal <= 7 {
                params@ == ""@
            } else {
                ordinal >= 3 && params@ == "const TopologyState& state"@
            },
        },
{
}

/// The init phases, in ordinal order.
pub fn phases() -> (r: Vec<PhaseInfo>)
    ensures
        r@ == phase_table(),
{
    vec![
        PhaseInfo {
            name: "configConstants",
            ordinal: 0,
            description: CONFIG_CONSTANTS_DESCRIPTION,
            default_code: NO_CODE,
            file: GeneratedFile::Hpp,
            placement: Placement::Namespace("ConfigConstants"),
            stage: Stage::Static,
        },
        PhaseInfo {
            name: "configObjects",
            ordinal: 1,
            description: CONFIG_OBJECTS_DESCRIPTION,
            default_code: NO_CODE,
            file: GeneratedFile::Cpp,
            placement: Placement::Namespace("ConfigObjects"),
            stage: Stage::Static,
        },
        PhaseInfo {
            name: "instances",
            ordinal: 2,
            description: INSTANCES_DESCRIPTION,
            default_code: INSTANCES_DEFAULT,
            file: GeneratedFile::Cpp,
            placement: Placement::Instances,
            stage: Stage::Setup,
        },
        PhaseInfo {
            name: "initComponents",
            ordinal: 3,
            description: INIT_COMPONENTS_DESCRIPTION,
            default_code: INIT_COMPONENTS_DEFAULT,
            file: GeneratedFile::Cpp,
            placement: Placement::Function(STATE),
            stage: Stage::Setup,
        },
        PhaseInfo {
            name: "configComponents",
            ordinal: 4,
            description: CONFIG_COMPONENTS_DESCRIPTION,
            default_code: NO_CODE,
            file: GeneratedFile::Cpp,
            placement: Placement::Function(STATE),
            stage: Stage::Setup,
        },
        PhaseInfo {
            name: "regCommands",
            ordinal: 5,
            description: REG_COMMANDS_DESCRIPTION,
            default_code: REG_COMMANDS_DEFAULT,
            file: GeneratedFile::Cpp,
            placement: Placement::Function(""),
            stage: Stage::Setup,
        },
        PhaseInfo {
            name: "readParameters",
            ordinal: 6,
            description: READ_PARAMETERS_DESCRIPTION,
            default_code: NO_CODE,
            file: GeneratedFile::Cpp,
            placement: Placement::Function(""),
            stage: Stage::Setup,
        },
        PhaseInfo {
            name: "loadParameters",
            ordinal: 7,
            description: LOAD_PARAMETERS_DESCRIPTION,
            default_code: LOAD_PARAMETERS_DEFAULT,
            file: GeneratedFile::Cpp,
            placement: Placement::Function(""),
            stage: Stage::Setup,
        },
        PhaseInfo {
            name: "startTasks",
            ordinal: 8,
            description: START_TASKS_DESCRIPTION,
            default_code: START_TASKS_DEFAULT,
            file: GeneratedFile::Cpp,
            placement: Placement::Function(STATE),
            stage: Stage::Setup,
        },
        PhaseInfo {
            name: "stopTasks",
            ordinal: 9,
            description: STOP_TASKS_DESCRIPTION,
            default_code: STOP_TASKS_DEFAULT,
            file: GeneratedFile::Cpp,
            placement: Placement::Function(STATE),
            stage: Stage::Teardown,
        },
        PhaseInfo {
            name: "freeThreads",
            ordinal: 10,
            description: FREE_THREADS_DESCRIPTION,
            default_code: FREE_THREADS_DEFAULT,
            file: GeneratedFile::Cpp,
            placement: Placement::Function(STATE),
            stage: Stage::Teardown,
        },
        PhaseInfo {
            name: "tearDownComponents",
            ordinal: 11,
            description: TEAR_DOWN_COMPONENTS_DESCRIPTION,
            default_code: NO_CODE,
            file: GeneratedFile::Cpp,
            placement: Placement::Function(STATE),
            stage: Stage::Teardown,
        },
        PhaseInfo {
            name: "deinitComponents",
            ordinal: 12,
            description: DEINIT_COMPONENTS_DESCRIPTION,
            default_code: DEINIT_COMPONENTS_DEFAULT,
            file: GeneratedFile::Cpp,
            placement: Placement::Function(STATE),
            stage: Stage::Teardown,
        },
    ]
}

/// The phase of the given ordinal, if there is one.
pub fn phase_info(ordinal: i128) -> (r: Option<PhaseInfo>)
    ensures
        r == phase_of(ordinal as int),
{
    proof {
        law_table_in_ordinal_order();
    }
    let table: Vec<PhaseInfo> = phases();
    let mut i: usize = 0;
    while i < table.len()
        invariant
            i <= table@.len(),
            table@ == phase_table(),
            forall|k: int|
                0 <= k < phase_table().len() ==> (#[trigger] phase_table()[k]).ordinal == k,
            forall|k: int| 0 <= k < i ==> (#[trigger] table@[k]).ordinal != ordinal,
        decreases table@.len() - i,
    {
        if table[i].ordinal == ordinal {
            return Some(table[i]);
        }
        i += 1;
    }
    None
}

impl PhaseInfo {
    /// The C++ signature or namespace path that the snippet is emitted into.
    pub open spec fn signature_text(self, instance_cpp_name: Seq<char>) -> Seq<char> {
        match self.placement {
            Placement::Namespace(ns) => "namespace "@ + ns@ + "::"@ + instance_cpp_name,
            Placement::Instances => "anonymous namespace (instance definitions)"@,
            Placement::Function(params) => "void "@ + self.name@ + "("@ + params@ + ")"@,
        }
    }

    /// The signature is that of the helper function `void <phase>(<params>)`, or the path of
    /// the instance's namespace `<Ns>::<Instance>`.
    pub proof fn law_signature_reads(self, instance_cpp_name: Seq<char>)
        ensures
            self.placement matches Placement::Function(params) ==> self.signature_text(
                instance_cpp_name,
            ) == "void "@ + self.name@ + "("@ + params@ + ")"@,
            self.placement matches Placement::Namespace(ns) ==> self.signature_text(
                instance_cpp_name,
            ) == "namespace "@ + ns@ + "::"@ + instance_cpp_name,
            self.placement is Instances ==> self.signature_text(instance_cpp_name)
                == "anonymous namespace (instance definitions)"@,
    {
    }

    /// The C++ signature (or namespace path) the snippet is emitted into, for
    /// display purposes.
    pub fn signature(&self, instance_cpp_name: &str) -> (r: String)
        ensures
            r@ == self.signature_text(instance_cpp_name@),
    {
        match self.placement {
            Placement::Namespace(ns) => "namespace ".to_string().concat(ns).concat("::").concat(
                instance_cpp_name,
            ),
            Placement::Instances => "anonymous namespace (instance definitions)".to_string(),
            Placement::Function(params) => "void ".to_string().concat(self.name).concat("(").concat(
                params,
            ).concat(")"),
        }
    }
}

} // verus!
