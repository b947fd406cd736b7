//! Compile-time dimensions of the two model variants.

use vstd::prelude::*;

use crate::config::{skip_white_space, trim_end, white_space};
use crate::text::{append_usize, debug_text, debug_view, decimal};

pub use crate::constants::{expert_layout, ExpertLayout};

verus! {

/// Dimensions of a model.
#[derive(Clone, Copy, Debug, PartialEq, Eq, Structural)]
pub struct ModelDims {
    pub hidden_dim: usize,
    pub num_layers: usize,
    pub num_attn_heads: usize,
    pub num_kv_heads: usize,
    pub head_dim: usize,
    pub vocab_size: usize,
    pub num_experts: usize,
    pub num_experts_per_tok: usize,
    pub moe_intermediate: usize,
    pub shared_intermediate: usize,
    pub linear_num_v_heads: usize,
    pub linear_num_k_heads: usize,
    pub linear_key_dim: usize,
    pub linear_value_dim: usize,
    pub linear_total_key: usize,
    pub linear_total_value: usize,
    pub linear_conv_dim: usize,
    pub rotary_dim: usize,
    pub num_full_attn_layers: usize,
    pub num_linear_layers: usize,
    pub kv_dim: usize,
    pub layout: ExpertLayout,
}

/// Base of the rotary frequencies, a whole number.
pub const ROPE_THETA: u64 = 10000000;

/// The packed layout of an expert with hidden size 2048, intermediate size 512 and groups
/// of 64.
pub open spec fn packed_expert() -> ExpertLayout {
    ExpertLayout {
        gate_w_off: 0,
        gate_s_off: 524288,
        gate_b_off: 557056,
        up_w_off: 589824,
        up_s_off: 1114112,
        up_b_off: 1146880,
        down_w_off: 1179648,
        down_s_off: 1703936,
        down_b_off: 1736704,
        gate_w_size: 524288,
        gate_s_size: 32768,
        gate_b_size: 32768,
        up_w_size: 524288,
        up_s_size: 32768,
        up_b_size: 32768,
        down_w_size: 524288,
        down_s_size: 32768,
        down_b_size: 32768,
        expert_size_4bit: 1769472,
    }
}

/// The packed layout of an expert of both variants.
fn packed_expert_layout() -> (r: ExpertLayout)
    ensures
        r == packed_expert(),
{
    ExpertLayout {
        gate_w_off: 0,
        gate_s_off: 524288,
        gate_b_off: 557056,
        up_w_off: 589824,
        up_s_off: 1114112,
        up_b_off: 1146880,
        down_w_off: 1179648,
        down_s_off: 1703936,
        down_b_off: 1736704,
        gate_w_size: 524288,
        gate_s_size: 32768,
        gate_b_size: 32768,
        up_w_size: 524288,
        up_s_size: 32768,
        up_b_size: 32768,
        down_w_size: 524288,
        down_s_size: 32768,
        down_b_size: 32768,
        expert_size_4bit: 1769472,
    }
}

impl ModelDims {
    /// The dimensions fit together: the layers split into full and linear attention layers,
    /// the heads add up to the projections, and the expert layout is that of the sizes.
    pub open spec fn coherent(self) -> bool {
        &&& self.num_full_attn_layers + self.num_linear_layers == self.num_layers
        &&& self.num_full_attn_layers == self.num_layers as int
            / crate::constants::FULL_ATTN_INTERVAL as int
        &&& self.kv_dim == self.num_kv_heads * self.head_dim
        &&& self.linear_total_key == self.linear_num_k_heads * self.linear_key_dim
        &&& self.linear_total_value == self.linear_num_v_heads * self.linear_value_dim
        &&& self.linear_conv_dim == 2 * self.linear_total_key + self.linear_total_value
        &&& self.num_experts_per_tok <= self.num_experts
        &&& self.num_experts_per_tok <= crate::constants::MAX_K
        &&& self.layout.contiguous()
        &&& self.layout.gate_w_size == crate::constants::packed_weight_bytes(
            self.moe_intermediate as int,
            self.hidden_dim as int,
        )
        &&& self.layout.expert_size_4bit == crate::constants::expert_bytes(
            self.hidden_dim as int,
            self.moe_intermediate as int,
            crate::constants::GROUP_SIZE as int,
        )
    }
}

/// Dimensions that a configuration file states.
#[derive(Clone, Copy, Debug, PartialEq, Eq, Structural)]
pub struct ConfigDims {
    pub hidden_dim: usize,
    pub num_layers: usize,
    pub num_experts: usize,
    pub num_experts_per_tok: usize,
    pub moe_intermediate: usize,
    pub shared_intermediate: usize,
    pub num_attn_heads: usize,
    pub num_kv_heads: usize,
    pub head_dim: usize,
    pub vocab_size: usize,
    pub linear_num_v_heads: usize,
    pub linear_num_k_heads: usize,
    pub linear_total_key: usize,
    pub linear_total_value: usize,
}

impl ConfigDims {
    /// The stated dimensions are those of the model.
    pub open spec fn matches(self, m: ModelDims) -> bool {
        &&& self.hidden_dim == m.hidden_dim
        &&& self.num_layers == m.num_layers
        &&& self.num_experts == m.num_experts
        &&& self.num_experts_per_tok == m.num_experts_per_tok
        &&& self.moe_intermediate == m.moe_intermediate
        &&& self.shared_intermediate == m.shared_intermediate
        &&& self.num_attn_heads == m.num_attn_heads
        &&& self.num_kv_heads == m.num_kv_heads
        &&& self.head_dim == m.head_dim
        &&& self.vocab_size == m.vocab_size
        &&& self.linear_num_v_heads == m.linear_num_v_heads
        &&& self.linear_num_k_heads == m.linear_num_k_heads
        &&& self.linear_total_key == m.linear_total_key
        &&& self.linear_total_value == m.linear_total_value
    }
}

/// One message about a dimension that differs.
pub open spec fn dim_message(name: Seq<char>, config: int, expected: int) -> Seq<char> {
    name + ": config="@ + decimal(config) + ", const="@ + decimal(expected)
}

/// The messages after one more dimension was compared.
pub open spec fn after_check(
    errs: Seq<Seq<char>>,
    name: Seq<char>,
    config: int,
    expected: int,
) -> Seq<Seq<char>> {
    if config != expected {
        errs.push(dim_message(name, config, expected))
    } else {
        errs
    }
}

/// Texts joined with "; ".
pub open spec fn joined(parts: Seq<Seq<char>>) -> Seq<char>
    decreases parts.len(),
{
    if parts.len() == 0 {
        Seq::empty()
    } else if parts.len() == 1 {
        parts[0]
    } else {
        joined(parts.drop_last()) + "; "@ + parts.last()
    }
}

/// A text without the white space at its ends.
pub open spec fn trimmed(s: Seq<char>) -> Seq<char> {
    let v = skip_white_space(s, 0);
    s.subrange(v, trim_end(s, v, s.len() as int))
}

/// The part of the text between `a` and `b` is one item of the comma-separated list.
pub open spec fn is_item(text: Seq<char>, a: int, b: int) -> bool {
    &&& 0 <= a <= b <= text.len()
    &&& a == 0 || text[a - 1] == ','
    &&& b == text.len() || text[b] == ','
    &&& forall|i: int| a <= i < b ==> #[trigger] text[i] != ','
}

/// The comma-separated list names the architecture.
pub open spec fn lists(text: Seq<char>, name: Seq<char>) -> bool {
    exists|a: int, b: int| #[trigger] is_item(text, a, b) && trimmed(text.subrange(a, b)) == name
}

/// The message about a list that does not name the architecture.
pub open spec fn architecture_message(list_debug: Seq<char>, expected: Seq<char>) -> Seq<char> {
    "architecture mismatch: config="@ + list_debug + ", expected=\""@ + expected + "\""@
}

/// All messages about a configuration, in order. An empty list of architectures is accepted.
pub open spec fn config_messages(
    c: ConfigDims,
    architectures: Seq<char>,
    list_debug: Seq<char>,
    m: ModelDims,
    expected: Seq<char>,
) -> Seq<Seq<char>> {
    let e: Seq<Seq<char>> = if architectures.len() > 0 && !lists(architectures, expected) {
        seq![architecture_message(list_debug, expected)]
    } else {
        Seq::empty()
    };
    let e = after_check(e, "hidden_dim"@, c.hidden_dim as int, m.hidden_dim as int);
    let e = after_check(e, "num_layers"@, c.num_layers as int, m.num_layers as int);
    let e = after_check(e, "num_experts"@, c.num_experts as int, m.num_experts as int);
    let e = after_check(e, "num_experts_per_tok"@, c.num_experts_per_tok as int, m.num_experts_per_tok as int);
    let e = after_check(e, "moe_intermediate"@, c.moe_intermediate as int, m.moe_intermediate as int);
    let e = after_check(e, "shared_intermediate"@, c.shared_intermediate as int, m.shared_intermediate as int);
    let e = after_check(e, "num_attn_heads"@, c.num_attn_heads as int, m.num_attn_heads as int);
    let e = after_check(e, "num_kv_heads"@, c.num_kv_heads as int, m.num_kv_heads as int);
    let e = after_check(e, "head_dim"@, c.head_dim as int, m.head_dim as int);
    let e = after_check(e, "vocab_size"@, c.vocab_size as int, m.vocab_size as int);
    let e = after_check(e, "linear_num_v_heads"@, c.linear_num_v_heads as int, m.linear_num_v_heads as int);
    let e = after_check(e, "linear_num_k_heads"@, c.linear_num_k_heads as int, m.linear_num_k_heads as int);
    let e = after_check(e, "linear_total_key"@, c.linear_total_key as int, m.linear_total_key as int);
    let e = after_check(e, "linear_total_value"@, c.linear_total_value as int, m.linear_total_value as int);
    e
}

/// The texts of strings.
pub open spec fn views(v: Seq<String>) -> Seq<Seq<char>> {
    Seq::new(v.len(), |i: int| v[i]@)
}

/// Compare one dimension.
fn check_dim(errs: &mut Vec<String>, name: &str, config: usize, expected: usize)
    ensures
        views(final(errs)@) == after_check(
            views(old(errs)@),
            name@,
            config as int,
            expected as int,
        ),
{
    if config != expected {
        let mut s = String::from_str(name);
        s.append(": config=");
        append_usize(&mut s, config);
        s.append(", const=");
        append_usize(&mut s, expected);
        errs.push(s);
        assert(views(errs@) =~= views(old(errs)@).push(
            dim_message(name@, config as int, expected as int),
        ));
    }
}

/// Join texts with "; ".
fn join_messages(parts: &Vec<String>) -> (r: String)
    ensures
        r@ == joined(views(parts@)),
{
    let mut s = String::new();
    let n: usize = parts.len();
    for i in 0..n
        invariant
            n == parts@.len(),
            s@ == joined(views(parts@).take(i as int)),
    {
        proof {
            let next = views(parts@).take(i + 1);
            assert(next.drop_last() =~= views(parts@).take(i as int));
            assert(next.last() == parts@[i as int]@);
        }
        if i > 0 {
            s.append("; ");
        }
        s.append(parts[i].as_str());
        proof {
            if i == 0 {
                assert(s@ =~= parts@[0]@);
            }
        }
    }
    assert(views(parts@).take(n as int) =~= views(parts@));
    s
}

/// Whether the part of the text between `a` and `b`, trimmed, is the name.
fn item_is(text: &Vec<char>, a: usize, b: usize, name: &Vec<char>) -> (r: bool)
    requires
        a <= b <= text@.len(),
    ensures
        r == (trimmed(text@.subrange(a as int, b as int)) == name@),
{
    let ghost item = text@.subrange(a as int, b as int);
    let mut v: usize = a;
    while v < b && white_space(text[v])
        invariant
            a <= v <= b <= text@.len(),
            item == text@.subrange(a as int, b as int),
            skip_white_space(item, 0) == skip_white_space(item, v - a),
        decreases b - v,
    {
        v = v + 1;
    }
    let mut e: usize = b;
    while e > v && white_space(text[e - 1])
        invariant
            a <= v <= e <= b <= text@.len(),
            item == text@.subrange(a as int, b as int),
            trim_end(item, v - a, b - a) == trim_end(item, v - a, e - a),
        decreases e - v,
    {
        e = e - 1;
    }
    let ghost core = item.subrange(v - a, e - a);
    assert(trimmed(item) == core);
    if e - v != name.len() {
        return false;
    }
    for i in 0..name.len()
        invariant
            a <= v <= e <= b <= text@.len(),
            item == text@.subrange(a as int, b as int),
            core == item.subrange(v - a, e - a),
            trimmed(item) == core,
            e - v == name@.len(),
            forall|j: int| 0 <= j < i ==> core[j] == name@[j],
    {
        if text[v + i] != name[i] {
            assert(core[i as int] != name@[i as int]);
            return false;
        }
    }
    assert(core =~= name@);
    true
}

/// Whether the comma-separated list names the architecture.
pub fn names_architecture(list: &str, name: &str) -> (r: bool)
    ensures
        r == lists(list@, name@),
{
    let text: Vec<char> = crate::text::chars_of(list);
    let want: Vec<char> = crate::text::chars_of(name);
    let n: usize = text.len();
    let mut a: usize = 0;
    loop
        invariant
            n == text@.len(),
            text@ == list@,
            want@ == name@,
            a <= n,
            a == 0 || text@[a - 1] == ',',
            forall|x: int, y: int|
                #[trigger] is_item(text@, x, y) && x < a ==> trimmed(text@.subrange(x, y))
                    != want@,
        decreases n + 1 - a,
    {
        let mut b: usize = a;
        while b < n && text[b] != ','
            invariant
                n == text@.len(),
                a <= b <= n,
                forall|i: int| a <= i < b ==> #[trigger] text@[i] != ',',
            decreases n - b,
        {
            b = b + 1;
        }
        assert(is_item(text@, a as int, b as int));
        if item_is(&text, a, b, &want) {
            return true;
        }
        assert forall|x: int, y: int|
            #[trigger] is_item(text@, x, y) && x < b + 1 implies trimmed(text@.subrange(x, y))
            != want@ by {
            if x == a {
                if y < b {
                    assert(text@[y] == ',');
                } else if y > b {
                    assert(text@[b as int] == ',');
                }
            } else if x > a {
                assert(text@[x - 1] == ',');
            }
        }
        if b >= n {
            proof {
                if lists(list@, name@) {
                    let (x, y) = choose|x: int, y: int| #[trigger]
                        is_item(list@, x, y) && trimmed(list@.subrange(x, y)) == name@;
                    assert(x < b + 1);
                }
            }
            return false;
        }
        a = b + 1;
    }
}

/// The dimensions of one model variant.
pub trait ModelConfig {
    /// The variant's dimensions.
    spec fn dims() -> ModelDims;

    /// The architecture that the variant's configuration names.
    spec fn architecture() -> Seq<char>;

    /// The variant's dimensions.
    fn constants() -> (d: ModelDims)
        ensures
            d == Self::dims(),
    ;

    /// The architecture that the variant's configuration names.
    fn expected_architecture() -> (s: &'static str)
        ensures
            s@ == Self::architecture(),
    ;

    /// Compare a configuration with the variant: every difference is reported, joined with
    /// "; ". An empty list of architectures is accepted.
    fn validate_config(
        hidden_dim: usize,
        num_layers: usize,
        num_experts: usize,
        num_experts_per_tok: usize,
        moe_intermediate: usize,
        shared_intermediate: usize,
        num_attn_heads: usize,
        num_kv_heads: usize,
        head_dim: usize,
        vocab_size: usize,
        linear_num_v_heads: usize,
        linear_num_k_heads: usize,
        linear_total_key: usize,
        linear_total_value: usize,
        architectures_str: &str,
    ) -> (r: Result<(), String>)
        ensures
            ({
                let c = ConfigDims {
                    hidden_dim,
                    num_layers,
                    num_experts,
                    num_experts_per_tok,
                    moe_intermediate,
                    shared_intermediate,
                    num_attn_heads,
                    num_kv_heads,
                    head_dim,
                    vocab_size,
                    linear_num_v_heads,
                    linear_num_k_heads,
                    linear_total_key,
                    linear_total_value,
                };
                let msgs = config_messages(
                    c,
                    architectures_str@,
                    debug_view(architectures_str@),
                    Self::dims(),
                    Self::architecture(),
                );
                match r {
                    Ok(()) => msgs.len() == 0,
                    Err(e) => msgs.len() > 0 && e@ == joined(msgs),
                }
            }),
    {
        let m = Self::constants();
        let expected = Self::expected_architecture();
        let mut errs: Vec<String> = Vec::new();
        proof {
            assert(views(errs@) =~= Seq::<Seq<char>>::empty());
        }
        if architectures_str.unicode_len() > 0 && !names_architecture(architectures_str, expected) {
            let quoted = debug_text(architectures_str);
            errs.push(describe_architecture(quoted.as_str(), expected));
            proof {
                assert(views(errs@) =~= seq![
                    architecture_message(debug_view(architectures_str@), expected@),
                ]);
            }
        }
        check_dim(&mut errs, "hidden_dim", hidden_dim, m.hidden_dim);
        check_dim(&mut errs, "num_layers", num_layers, m.num_layers);
        check_dim(&mut errs, "num_experts", num_experts, m.num_experts);
        check_dim(&mut errs, "num_experts_per_tok", num_experts_per_tok, m.num_experts_per_tok);
        check_dim(&mut errs, "moe_intermediate", moe_intermediate, m.moe_intermediate);
        check_dim(&mut errs, "shared_intermediate", shared_intermediate, m.shared_intermediate);
        check_dim(&mut errs, "num_attn_heads", num_attn_heads, m.num_attn_heads);
        check_dim(&mut errs, "num_kv_heads", num_kv_heads, m.num_kv_heads);
        check_dim(&mut errs, "head_dim", head_dim, m.head_dim);
        check_dim(&mut errs, "vocab_size", vocab_size, m.vocab_size);
        check_dim(&mut errs, "linear_num_v_heads", linear_num_v_heads, m.linear_num_v_heads);
        check_dim(&mut errs, "linear_num_k_heads", linear_num_k_heads, m.linear_num_k_heads);
        check_dim(&mut errs, "linear_total_key", linear_total_key, m.linear_total_key);
        check_dim(&mut errs, "linear_total_value", linear_total_value, m.linear_total_value);
        if errs.len() == 0 {
            Ok(())
        } else {
            Err(join_messages(&errs))
        }
    }
}

/// The message about a list of architectures, given as `{:?}` prints it.
pub fn describe_architecture(list_debug: &str, expected: &str) -> (r: String)
    ensures
        r@ == architecture_message(list_debug@, expected@),
{
    let mut s = String::from_str("architecture mismatch: config=");
    s.append(list_debug);
    s.append(", expected=\"");
    s.append(expected);
    s.append("\"");
    s
}

/// Full model: 40 layers, 256 experts, 8 experts per token.
pub struct FullModel;

impl ModelConfig for FullModel {
    open spec fn dims() -> ModelDims {
        ModelDims {
            hidden_dim: 2048,
            num_layers: 40,
            num_attn_heads: 16,
            num_kv_heads: 2,
            head_dim: 256,
            vocab_size: 248320,
            num_experts: 256,
            num_experts_per_tok: 8,
            moe_intermediate: 512,
            shared_intermediate: 512,
            linear_num_v_heads: 32,
            linear_num_k_heads: 16,
            linear_key_dim: 128,
            linear_value_dim: 128,
            linear_total_key: 2048,
            linear_total_value: 4096,
            linear_conv_dim: 8192,
            rotary_dim: 64,
            num_full_attn_layers: 10,
            num_linear_layers: 30,
            kv_dim: 512,
            layout: packed_expert(),
        }
    }

    open spec fn architecture() -> Seq<char> {
        "Qwen3_5MoeForConditionalGeneration"@
    }

    fn constants() -> (d: ModelDims) {
        ModelDims {
            hidden_dim: 2048,
            num_layers: 40,
            num_attn_heads: 16,
            num_kv_heads: 2,
            head_dim: 256,
            vocab_size: 248320,
            num_experts: 256,
            num_experts_per_tok: 8,
            moe_intermediate: 512,
            shared_intermediate: 512,
            linear_num_v_heads: 32,
            linear_num_k_heads: 16,
            linear_key_dim: 128,
            linear_value_dim: 128,
            linear_total_key: 2048,
            linear_total_value: 4096,
            linear_conv_dim: 8192,
            rotary_dim: 64,
            num_full_attn_layers: 10,
            num_linear_layers: 30,
            kv_dim: 512,
            layout: packed_expert_layout(),
        }
    }

    fn expected_architecture() -> (s: &'static str) {
        "Qwen3_5MoeForConditionalGeneration"
    }
}

/// Stripped model for tests: 4 layers, 4 experts, 4 experts per token.
pub struct StrippedModel;

impl ModelConfig for StrippedModel {
    open spec fn dims() -> ModelDims {
        ModelDims {
            hidden_dim: 2048,
            num_layers: 4,
            num_attn_heads: 16,
            num_kv_heads: 2,
            head_dim: 256,
            vocab_size: 248320,
            num_experts: 4,
            num_experts_per_tok: 4,
            moe_intermediate: 512,
            shared_intermediate: 512,
            linear_num_v_heads: 32,
            linear_num_k_heads: 16,
            linear_key_dim: 128,
            linear_value_dim: 128,
            linear_total_key: 2048,
            linear_total_value: 4096,
            linear_conv_dim: 8192,
            rotary_dim: 64,
            num_full_attn_layers: 1,
            num_linear_layers: 3,
            kv_dim: 512,
            layout: packed_expert(),
        }
    }

    open spec fn architecture() -> Seq<char> {
        "Qwen3_5MoeForConditionalGeneration_Stripped"@
    }

    fn constants() -> (d: ModelDims) {
        ModelDims {
            hidden_dim: 2048,
            num_layers: 4,
            num_attn_heads: 16,
            num_kv_heads: 2,
            head_dim: 256,
            vocab_size: 248320,
            num_experts: 4,
            num_experts_per_tok: 4,
            moe_intermediate: 512,
            shared_intermediate: 512,
            linear_num_v_heads: 32,
            linear_num_k_heads: 16,
            linear_key_dim: 128,
            linear_value_dim: 128,
            linear_total_key: 2048,
            linear_total_value: 4096,
            linear_conv_dim: 8192,
            rotary_dim: 64,
            num_full_attn_layers: 1,
            num_linear_layers: 3,
            kv_dim: 512,
            layout: packed_expert_layout(),
        }
    }

    fn expected_architecture() -> (s: &'static str) {
        "Qwen3_5MoeForConditionalGeneration_Stripped"
    }
}

/// The dimensions of both variants fit together.
pub proof fn law_models_coherent()
    ensures
        FullModel::dims().coherent(),
        StrippedModel::dims().coherent(),
{
}

/// A configuration that states the model's dimensions, with no list of architectures or one
/// that names the model's, is accepted; any other is not.
pub proof fn law_config_accepted_iff_equal(
    c: ConfigDims,
    architectures: Seq<char>,
    list_debug: Seq<char>,
    m: ModelDims,
    expected: Seq<char>,
)
    ensures
        config_messages(c, architectures, list_debug, m, expected).len() == 0 <==> c.matches(m) && (
        architectures.len() == 0 || lists(architectures, expected)),
{
}

} // verus!
