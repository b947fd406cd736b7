//! Engine selection.

use vstd::prelude::*;

use crate::error::MoEError;
use crate::text::{debug_text, debug_view, str_eq};

pub mod cpu;
pub mod cpu_engine;
pub mod fused;
pub mod qwen35_moe;
pub mod session;

use fused::EngineStep;
use qwen35_moe::constants::{
    config_messages, joined, ConfigDims, FullModel, ModelConfig, ModelDims, StrippedModel,
};

verus! {

/// Whether engines record telemetry.
pub struct TelemetrySwitch {
    pub on: bool,
}

impl Default for TelemetrySwitch {
    /// Telemetry starts off.
    fn default() -> (r: Self)
        ensures
            !r.on,
    {
        TelemetrySwitch { on: false }
    }
}

/// Enable or disable telemetry.
pub fn set_record_telemetry(switch: &mut TelemetrySwitch, on: bool)
    ensures
        final(switch).on == on,
{
    switch.on = on;
}

/// Whether telemetry is enabled.
pub fn record_telemetry(switch: &TelemetrySwitch) -> (r: bool)
    ensures
        r == switch.on,
{
    switch.on
}

/// An engine for a model variant.
#[derive(Clone, Copy, Debug, PartialEq, Eq, Structural)]
pub enum EngineEnum {
    Qwen35MoEFused4bit,
    Qwen35MoEFused4bitStripped,
    Qwen35MoEFused4bitExp1,
    Qwen35MoEFused4bitExp1Stripped,
    Qwen35MoEFused4bitExp2,
    Qwen35MoEFused4bitExp2Stripped,
    Qwen35MoEFused4bitExp3,
    Qwen35MoEFused4bitExp3Stripped,
}

/// The engine of a name for an architecture.
pub open spec fn engine_for(engine_type: Seq<char>, arch: Seq<char>) -> Option<EngineEnum> {
    if engine_type == "Qwen35MoEFused4bit"@ && arch == "Qwen3_5MoeForConditionalGeneration"@ {
        Some(EngineEnum::Qwen35MoEFused4bit)
    } else if engine_type == "Qwen35MoEFused4bit"@ && arch == "Qwen3_5MoeForConditionalGeneration_Stripped"@ {
        Some(EngineEnum::Qwen35MoEFused4bitStripped)
    } else if engine_type == "Qwen35MoEFused4bitExp1"@ && arch == "Qwen3_5MoeForConditionalGeneration"@ {
        Some(EngineEnum::Qwen35MoEFused4bitExp1)
    } else if engine_type == "Qwen35MoEFused4bitExp1"@ && arch == "Qwen3_5MoeForConditionalGeneration_Stripped"@ {
        Some(EngineEnum::Qwen35MoEFused4bitExp1Stripped)
    } else if engine_type == "Qwen35MoEFused4bitExp2"@ && arch == "Qwen3_5MoeForConditionalGeneration"@ {
        Some(EngineEnum::Qwen35MoEFused4bitExp2)
    } else if engine_type == "Qwen35MoEFused4bitExp2"@ && arch == "Qwen3_5MoeForConditionalGeneration_Stripped"@ {
        Some(EngineEnum::Qwen35MoEFused4bitExp2Stripped)
    } else if engine_type == "Qwen35MoEFused4bitExp3"@ && arch == "Qwen3_5MoeForConditionalGeneration"@ {
        Some(EngineEnum::Qwen35MoEFused4bitExp3)
    } else if engine_type == "Qwen35MoEFused4bitExp3"@ && arch == "Qwen3_5MoeForConditionalGeneration_Stripped"@ {
        Some(EngineEnum::Qwen35MoEFused4bitExp3Stripped)
    } else {
        None
    }
}

/// The message about an engine that does not exist, from both names as `{:?}` prints them.
pub open spec fn unknown_engine(engine_debug: Seq<char>, arch_debug: Seq<char>) -> Seq<char> {
    "Unknown engine: engine_type="@ + engine_debug + ", arch="@ + arch_debug
}

/// The message about an engine that does not exist, from both names as `{:?}` prints them.
pub fn unknown_engine_message(engine_debug: &str, arch_debug: &str) -> (r: String)
    ensures
        r@ == unknown_engine(engine_debug@, arch_debug@),
{
    let mut s = String::from_str("Unknown engine: engine_type=");
    s.append(engine_debug);
    s.append(", arch=");
    s.append(arch_debug);
    s
}

/// The name of an architecture, empty where none is given.
pub open spec fn arch_name(arch: Option<&str>) -> Seq<char> {
    match arch {
        Some(a) => a@,
        None => ""@,
    }
}

impl EngineEnum {
    /// Whether the engine is for the stripped model.
    pub open spec fn stripped(self) -> bool {
        match self {
            EngineEnum::Qwen35MoEFused4bit => false,
            EngineEnum::Qwen35MoEFused4bitStripped => true,
            EngineEnum::Qwen35MoEFused4bitExp1 => false,
            EngineEnum::Qwen35MoEFused4bitExp1Stripped => true,
            EngineEnum::Qwen35MoEFused4bitExp2 => false,
            EngineEnum::Qwen35MoEFused4bitExp2Stripped => true,
            EngineEnum::Qwen35MoEFused4bitExp3 => false,
            EngineEnum::Qwen35MoEFused4bitExp3Stripped => true,
        }
    }

    /// The dimensions of the engine's model.
    pub open spec fn dims(self) -> ModelDims {
        if self.stripped() {
            StrippedModel::dims()
        } else {
            FullModel::dims()
        }
    }

    /// The architecture of the engine's model.
    pub open spec fn architecture(self) -> Seq<char> {
        if self.stripped() {
            StrippedModel::architecture()
        } else {
            FullModel::architecture()
        }
    }

    /// Find the engine of a name for the first architecture that the configuration lists.
    pub fn resolve_and_init(engine_type: &str, arch: Option<&str>) -> (r: Result<
        EngineEnum,
        MoEError,
    >)
        ensures
            match engine_for(engine_type@, arch_name(arch)) {
                Some(e) => r == Ok::<EngineEnum, MoEError>(e),
                None => r matches Err(MoEError::Config(m)) && m@ == unknown_engine(
                    debug_view(engine_type@),
                    debug_view(arch_name(arch)),
                ),
            },
    {
        let arch = match arch {
            Some(a) => a,
            None => "",
        };
        if str_eq(engine_type, "Qwen35MoEFused4bit") && str_eq(arch, "Qwen3_5MoeForConditionalGeneration") {
            Ok(EngineEnum::Qwen35MoEFused4bit)
        } else if str_eq(engine_type, "Qwen35MoEFused4bit") && str_eq(arch, "Qwen3_5MoeForConditionalGeneration_Stripped") {
            Ok(EngineEnum::Qwen35MoEFused4bitStripped)
        } else if str_eq(engine_type, "Qwen35MoEFused4bitExp1") && str_eq(arch, "Qwen3_5MoeForConditionalGeneration") {
            Ok(EngineEnum::Qwen35MoEFused4bitExp1)
        } else if str_eq(engine_type, "Qwen35MoEFused4bitExp1") && str_eq(arch, "Qwen3_5MoeForConditionalGeneration_Stripped") {
            Ok(EngineEnum::Qwen35MoEFused4bitExp1Stripped)
        } else if str_eq(engine_type, "Qwen35MoEFused4bitExp2") && str_eq(arch, "Qwen3_5MoeForConditionalGeneration") {
            Ok(EngineEnum::Qwen35MoEFused4bitExp2)
        } else if str_eq(engine_type, "Qwen35MoEFused4bitExp2") && str_eq(arch, "Qwen3_5MoeForConditionalGeneration_Stripped") {
            Ok(EngineEnum::Qwen35MoEFused4bitExp2Stripped)
        } else if str_eq(engine_type, "Qwen35MoEFused4bitExp3") && str_eq(arch, "Qwen3_5MoeForConditionalGeneration") {
            Ok(EngineEnum::Qwen35MoEFused4bitExp3)
        } else if str_eq(engine_type, "Qwen35MoEFused4bitExp3") && str_eq(arch, "Qwen3_5MoeForConditionalGeneration_Stripped") {
            Ok(EngineEnum::Qwen35MoEFused4bitExp3Stripped)
        } else {
            let quoted_engine = debug_text(engine_type);
            let quoted_arch = debug_text(arch);
            Err(
                MoEError::Config(
                    unknown_engine_message(quoted_engine.as_str(), quoted_arch.as_str()),
                ),
            )
        }
    }
}

/// What an engine was made with.
#[derive(Clone, Copy, Debug, PartialEq, Eq, Structural)]
pub struct FusedEngine {
    pub dims: ModelDims,
    /// Experts per token.
    pub k: usize,
}

impl FusedEngine {
    /// An engine for a model variant, if the configuration is the variant's.
    pub fn new<M: ModelConfig>(config: &ConfigDims, architectures: &str, k: usize) -> (r: Result<
        FusedEngine,
        MoEError,
    >)
        ensures
            ({
                let msgs = config_messages(
                    *config,
                    architectures@,
                    debug_view(architectures@),
                    M::dims(),
                    M::architecture(),
                );
                match r {
                    Ok(e) => msgs.len() == 0 && e == (FusedEngine { dims: M::dims(), k }),
                    Err(e) => msgs.len() > 0 && (e matches MoEError::Config(m) && m@ == joined(
                        msgs,
                    )),
                }
            }),
    {
        match M::validate_config(
            config.hidden_dim,
            config.num_layers,
            config.num_experts,
            config.num_experts_per_tok,
            config.moe_intermediate,
            config.shared_intermediate,
            config.num_attn_heads,
            config.num_kv_heads,
            config.head_dim,
            config.vocab_size,
            config.linear_num_v_heads,
            config.linear_num_k_heads,
            config.linear_total_key,
            config.linear_total_value,
            architectures,
        ) {
            Ok(()) => Ok(FusedEngine { dims: M::constants(), k }),
            Err(e) => Err(MoEError::Config(e)),
        }
    }
}

/// One of the engines.
pub enum DynEngine {
    Qwen35MoEFused4bit(FusedEngine),
    Qwen35MoEFused4bitStripped(FusedEngine),
    Qwen35MoEFused4bitExp1(FusedEngine),
    Qwen35MoEFused4bitExp1Stripped(FusedEngine),
    Qwen35MoEFused4bitExp2(FusedEngine),
    Qwen35MoEFused4bitExp2Stripped(FusedEngine),
    Qwen35MoEFused4bitExp3(FusedEngine),
    Qwen35MoEFused4bitExp3Stripped(FusedEngine),
}

impl DynEngine {
    /// Which engine this is.
    pub open spec fn spec_kind(self) -> EngineEnum {
        match self {
            DynEngine::Qwen35MoEFused4bit(_) => EngineEnum::Qwen35MoEFused4bit,
            DynEngine::Qwen35MoEFused4bitStripped(_) => EngineEnum::Qwen35MoEFused4bitStripped,
            DynEngine::Qwen35MoEFused4bitExp1(_) => EngineEnum::Qwen35MoEFused4bitExp1,
            DynEngine::Qwen35MoEFused4bitExp1Stripped(_) => EngineEnum::Qwen35MoEFused4bitExp1Stripped,
            DynEngine::Qwen35MoEFused4bitExp2(_) => EngineEnum::Qwen35MoEFused4bitExp2,
            DynEngine::Qwen35MoEFused4bitExp2Stripped(_) => EngineEnum::Qwen35MoEFused4bitExp2Stripped,
            DynEngine::Qwen35MoEFused4bitExp3(_) => EngineEnum::Qwen35MoEFused4bitExp3,
            DynEngine::Qwen35MoEFused4bitExp3Stripped(_) => EngineEnum::Qwen35MoEFused4bitExp3Stripped,
        }
    }

    /// What the engine was made with.
    pub open spec fn spec_engine(self) -> FusedEngine {
        match self {
            DynEngine::Qwen35MoEFused4bit(e) => e,
            DynEngine::Qwen35MoEFused4bitStripped(e) => e,
            DynEngine::Qwen35MoEFused4bitExp1(e) => e,
            DynEngine::Qwen35MoEFused4bitExp1Stripped(e) => e,
            DynEngine::Qwen35MoEFused4bitExp2(e) => e,
            DynEngine::Qwen35MoEFused4bitExp2Stripped(e) => e,
            DynEngine::Qwen35MoEFused4bitExp3(e) => e,
            DynEngine::Qwen35MoEFused4bitExp3Stripped(e) => e,
        }
    }

    /// Which engine this is.
    pub fn kind(&self) -> (r: EngineEnum)
        ensures
            r == self.spec_kind(),
    {
        match self {
            DynEngine::Qwen35MoEFused4bit(_) => EngineEnum::Qwen35MoEFused4bit,
            DynEngine::Qwen35MoEFused4bitStripped(_) => EngineEnum::Qwen35MoEFused4bitStripped,
            DynEngine::Qwen35MoEFused4bitExp1(_) => EngineEnum::Qwen35MoEFused4bitExp1,
            DynEngine::Qwen35MoEFused4bitExp1Stripped(_) => EngineEnum::Qwen35MoEFused4bitExp1Stripped,
            DynEngine::Qwen35MoEFused4bitExp2(_) => EngineEnum::Qwen35MoEFused4bitExp2,
            DynEngine::Qwen35MoEFused4bitExp2Stripped(_) => EngineEnum::Qwen35MoEFused4bitExp2Stripped,
            DynEngine::Qwen35MoEFused4bitExp3(_) => EngineEnum::Qwen35MoEFused4bitExp3,
            DynEngine::Qwen35MoEFused4bitExp3Stripped(_) => EngineEnum::Qwen35MoEFused4bitExp3Stripped,
        }
    }

    /// What the engine was made with.
    pub fn engine(&self) -> (r: &FusedEngine)
        ensures
            *r == self.spec_engine(),
    {
        match self {
            DynEngine::Qwen35MoEFused4bit(e) => e,
            DynEngine::Qwen35MoEFused4bitStripped(e) => e,
            DynEngine::Qwen35MoEFused4bitExp1(e) => e,
            DynEngine::Qwen35MoEFused4bitExp1Stripped(e) => e,
            DynEngine::Qwen35MoEFused4bitExp2(e) => e,
            DynEngine::Qwen35MoEFused4bitExp2Stripped(e) => e,
            DynEngine::Qwen35MoEFused4bitExp3(e) => e,
            DynEngine::Qwen35MoEFused4bitExp3Stripped(e) => e,
        }
    }

    /// The step that brings a cache at `pos` to the device: none for a cache without positions.
    pub fn upload_cache(&self, pos: usize) -> (r: Option<EngineStep>)
        ensures
            r == (if pos == 0 {
                None
            } else {
                Some(EngineStep::Upload)
            }),
    {
        if pos == 0 {
            None
        } else {
            Some(EngineStep::Upload)
        }
    }

    /// The step that brings the cache back from the device.
    pub fn download_cache(&self) -> (r: EngineStep)
        ensures
            r == EngineStep::Download,
    {
        EngineStep::Download
    }

    /// Make an engine, if the configuration is that of the engine's model.
    pub fn new(
        config: &ConfigDims,
        architectures: &str,
        k: usize,
        engine_type: EngineEnum,
    ) -> (r: Result<Self, MoEError>)
        ensures
            ({
                let msgs = config_messages(
                    *config,
                    architectures@,
                    debug_view(architectures@),
                    engine_type.dims(),
                    engine_type.architecture(),
                );
                match r {
                    Ok(e) => {
                        &&& msgs.len() == 0
                        &&& e.spec_kind() == engine_type
                        &&& e.spec_engine() == (FusedEngine { dims: engine_type.dims(), k })
                    },
                    Err(e) => msgs.len() > 0 && (e matches MoEError::Config(m) && m@ == joined(
                        msgs,
                    )),
                }
            }),
    {
        match engine_type {
            EngineEnum::Qwen35MoEFused4bit => match FusedEngine::new::<FullModel>(config, architectures, k) {
                Ok(e) => Ok(DynEngine::Qwen35MoEFused4bit(e)),
                Err(e) => Err(e),
            },
            EngineEnum::Qwen35MoEFused4bitStripped => match FusedEngine::new::<StrippedModel>(config, architectures, k) {
                Ok(e) => Ok(DynEngine::Qwen35MoEFused4bitStripped(e)),
                Err(e) => Err(e),
            },
            EngineEnum::Qwen35MoEFused4bitExp1 => match FusedEngine::new::<FullModel>(config, architectures, k) {
                Ok(e) => Ok(DynEngine::Qwen35MoEFused4bitExp1(e)),
                Err(e) => Err(e),
            },
            EngineEnum::Qwen35MoEFused4bitExp1Stripped => match FusedEngine::new::<StrippedModel>(config, architectures, k) {
                Ok(e) => Ok(DynEngine::Qwen35MoEFused4bitExp1Stripped(e)),
                Err(e) => Err(e),
            },
            EngineEnum::Qwen35MoEFused4bitExp2 => match FusedEngine::new::<FullModel>(config, architectures, k) {
                Ok(e) => Ok(DynEngine::Qwen35MoEFused4bitExp2(e)),
                Err(e) => Err(e),
            },
            EngineEnum::Qwen35MoEFused4bitExp2Stripped => match FusedEngine::new::<StrippedModel>(config, architectures, k) {
                Ok(e) => Ok(DynEngine::Qwen35MoEFused4bitExp2Stripped(e)),
                Err(e) => Err(e),
            },
            EngineEnum::Qwen35MoEFused4bitExp3 => match FusedEngine::new::<FullModel>(config, architectures, k) {
                Ok(e) => Ok(DynEngine::Qwen35MoEFused4bitExp3(e)),
                Err(e) => Err(e),
            },
            EngineEnum::Qwen35MoEFused4bitExp3Stripped => match FusedEngine::new::<StrippedModel>(config, architectures, k) {
                Ok(e) => Ok(DynEngine::Qwen35MoEFused4bitExp3Stripped(e)),
                Err(e) => Err(e),
            },
        }
    }
}

/// Two pairs of names that both resolve to one engine are the same pair.
pub proof fn law_engine_names_injective(
    t1: Seq<char>,
    a1: Seq<char>,
    t2: Seq<char>,
    a2: Seq<char>,
)
    requires
        engine_for(t1, a1) is Some,
        engine_for(t1, a1) == engine_for(t2, a2),
    ensures
        t1 == t2,
        a1 == a2,
{
}

/// Every engine has a name and an architecture that resolve to it, and the architecture is
/// that of its model.
pub proof fn law_engine_resolvable(e: EngineEnum)
    ensures
        exists|t: Seq<char>| #[trigger] engine_for(t, e.architecture()) == Some(e),
{
    lemma_names_differ();
    match e {
        EngineEnum::Qwen35MoEFused4bit => {
            assert(engine_for("Qwen35MoEFused4bit"@, e.architecture()) == Some(e));
        },
        EngineEnum::Qwen35MoEFused4bitStripped => {
            assert(engine_for("Qwen35MoEFused4bit"@, e.architecture()) == Some(e));
        },
        EngineEnum::Qwen35MoEFused4bitExp1 => {
            assert(engine_for("Qwen35MoEFused4bitExp1"@, e.architecture()) == Some(e));
        },
        EngineEnum::Qwen35MoEFused4bitExp1Stripped => {
            assert(engine_for("Qwen35MoEFused4bitExp1"@, e.architecture()) == Some(e));
        },
        EngineEnum::Qwen35MoEFused4bitExp2 => {
            assert(engine_for("Qwen35MoEFused4bitExp2"@, e.architecture()) == Some(e));
        },
        EngineEnum::Qwen35MoEFused4bitExp2Stripped => {
            assert(engine_for("Qwen35MoEFused4bitExp2"@, e.architecture()) == Some(e));
        },
        EngineEnum::Qwen35MoEFused4bitExp3 => {
            assert(engine_for("Qwen35MoEFused4bitExp3"@, e.architecture()) == Some(e));
        },
        EngineEnum::Qwen35MoEFused4bitExp3Stripped => {
            assert(engine_for("Qwen35MoEFused4bitExp3"@, e.architecture()) == Some(e));
        },
    }
}

/// The literals that the selection compares with are distinct.
proof fn lemma_names_differ()
    ensures
        "Qwen3_5MoeForConditionalGeneration"@ != "Qwen3_5MoeForConditionalGeneration_Stripped"@,
        "Qwen35MoEFused4bit"@ != "Qwen35MoEFused4bitExp1"@,
        "Qwen35MoEFused4bit"@ != "Qwen35MoEFused4bitExp2"@,
        "Qwen35MoEFused4bit"@ != "Qwen35MoEFused4bitExp3"@,
        "Qwen35MoEFused4bitExp1"@ != "Qwen35MoEFused4bitExp2"@,
        "Qwen35MoEFused4bitExp1"@ != "Qwen35MoEFused4bitExp3"@,
        "Qwen35MoEFused4bitExp2"@ != "Qwen35MoEFused4bitExp3"@,
{
    reveal_strlit("Qwen3_5MoeForConditionalGeneration");
    reveal_strlit("Qwen3_5MoeForConditionalGeneration_Stripped");
    reveal_strlit("Qwen35MoEFused4bit");
    reveal_strlit("Qwen35MoEFused4bitExp1");
    reveal_strlit("Qwen35MoEFused4bitExp2");
    reveal_strlit("Qwen35MoEFused4bitExp3");
    assert("Qwen3_5MoeForConditionalGeneration"@.len() == 34);
    assert("Qwen3_5MoeForConditionalGeneration_Stripped"@.len() == 43);
    assert("Qwen35MoEFused4bit"@.len() == 18);
    assert("Qwen35MoEFused4bitExp1"@.len() == 22);
    assert("Qwen35MoEFused4bitExp2"@.len() == 22);
    assert("Qwen35MoEFused4bitExp3"@.len() == 22);
    assert("Qwen35MoEFused4bitExp1"@[21] != "Qwen35MoEFused4bitExp2"@[21]);
    assert("Qwen35MoEFused4bitExp1"@[21] != "Qwen35MoEFused4bitExp3"@[21]);
    assert("Qwen35MoEFused4bitExp2"@[21] != "Qwen35MoEFused4bitExp3"@[21]);
}

/// The engines come in pairs: under the same type name, the architecture's name with `_Stripped`
/// behind it chooses the engine of the stripped model, and the plain name that of the full model.
/// Any other architecture has none.
pub proof fn law_engine_pairs(t: Seq<char>, arch: Seq<char>)
    requires
        engine_for(t, arch) is Some,
    ensures
        ({
            let full = "Qwen3_5MoeForConditionalGeneration"@;
            let stripped = full + "_Stripped"@;
            let e = engine_for(t, arch)->0;
            &&& arch == full || arch == stripped
            &&& e.stripped() == (arch == stripped)
            &&& engine_for(t, full) is Some
            &&& !engine_for(t, full)->0.stripped()
            &&& engine_for(t, stripped) is Some
            &&& engine_for(t, stripped)->0.stripped()
            &&& e.stripped() ==> e.dims() == StrippedModel::dims()
            &&& !e.stripped() ==> e.dims() == FullModel::dims()
        }),
{
    lemma_names_differ();
    reveal_strlit("Qwen3_5MoeForConditionalGeneration");
    reveal_strlit("_Stripped");
    reveal_strlit("Qwen3_5MoeForConditionalGeneration_Stripped");
    assert("Qwen3_5MoeForConditionalGeneration"@ + "_Stripped"@
        =~= "Qwen3_5MoeForConditionalGeneration_Stripped"@);
}

} // verus!
