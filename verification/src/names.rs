//! The names of the layers of a model, and that no two layers share one.

use crate::scope::child;
use vstd::prelude::*;
use vstd::string::StringExecFns;

verus! {

/// A decimal digit.
pub open spec fn digit(d: nat) -> char {
    if d == 0 {
        '0'
    } else if d == 1 {
        '1'
    } else if d == 2 {
        '2'
    } else if d == 3 {
        '3'
    } else if d == 4 {
        '4'
    } else if d == 5 {
        '5'
    } else if d == 6 {
        '6'
    } else if d == 7 {
        '7'
    } else if d == 8 {
        '8'
    } else {
        '9'
    }
}

/// A number in decimal notation.
pub open spec fn decimal(n: nat) -> Seq<char>
    decreases n,
{
    if n < 10 {
        seq![digit(n)]
    } else {
        decimal(n / 10).push(digit(n % 10))
    }
}

/// A decimal digit as a string.
fn digit_str(d: usize) -> (s: &'static str)
    requires
        d < 10,
    ensures
        s@ == seq![digit(d as nat)],
{
    proof {
        reveal_strlit("0");
        reveal_strlit("1");
        reveal_strlit("2");
        reveal_strlit("3");
        reveal_strlit("4");
        reveal_strlit("5");
        reveal_strlit("6");
        reveal_strlit("7");
        reveal_strlit("8");
        reveal_strlit("9");
    }
    let s: &'static str = match d {
        0 => "0",
        1 => "1",
        2 => "2",
        3 => "3",
        4 => "4",
        5 => "5",
        6 => "6",
        7 => "7",
        8 => "8",
        _ => "9",
    };
    assert(s@ =~= seq![digit(d as nat)]);
    s
}

/// Writes a number in decimal notation.
pub fn write_decimal(n: usize) -> (s: String)
    ensures
        s@ == decimal(n as nat),
    decreases n,
{
    if n < 10 {
        return digit_str(n).to_owned();
    }
    let mut s: String = write_decimal(n / 10);
    s.append(digit_str(n % 10));
    assert(s@ =~= decimal(n as nat));
    s
}

/// The name of the block with the given number.
pub open spec fn block_name(i: nat) -> Seq<char> {
    "transformer "@ + decimal(i)
}

/// The name of the block with the given number.
pub fn name_of_block(i: usize) -> (s: String)
    ensures
        s@ == block_name(i as nat),
        s@.len() > 0,
{
    proof {
        reveal_strlit("transformer ");
    }
    let mut s: String = "transformer ".to_owned();
    s.append(write_decimal(i).as_str());
    s
}

/// A layer of a block.
pub enum BlockLayer {
    Linear1,
    Linear2,
    Norm1,
    Norm2,
    Query,
    Key,
    Value,
    OutProj,
}

/// A layer of a model.
pub enum Layer {
    TokEmb,
    PosEmb,
    FinalNorm,
    OutHead,
    Block(nat, BlockLayer),
}

/// The path of the block with the given number within the scope of a model.
pub open spec fn block_path(root: Seq<char>, i: nat) -> Seq<char> {
    child(root, block_name(i))
}

/// The path of a layer within the scope of its block.
pub open spec fn block_layer_path(path: Seq<char>, layer: BlockLayer) -> Seq<char> {
    match layer {
        BlockLayer::Linear1 => child(child(path, "ff"@), "linear1"@),
        BlockLayer::Linear2 => child(child(path, "ff"@), "linear2"@),
        BlockLayer::Norm1 => child(path, "norm1"@),
        BlockLayer::Norm2 => child(path, "norm2"@),
        BlockLayer::Query => child(path, "wq"@),
        BlockLayer::Key => child(path, "wk"@),
        BlockLayer::Value => child(path, "wv"@),
        BlockLayer::OutProj => child(path, "out_proj"@),
    }
}

/// The path of a layer within the scope of a model.
pub open spec fn layer_path(root: Seq<char>, layer: Layer) -> Seq<char> {
    match layer {
        Layer::TokEmb => child(root, "tok_emb"@),
        Layer::PosEmb => child(root, "pos_enb"@),
        Layer::FinalNorm => child(root, "final_norm"@),
        Layer::OutHead => child(root, "out_head"@),
        Layer::Block(i, layer) => block_layer_path(block_path(root, i), layer),
    }
}

/// A decimal number holds no full stop.
proof fn lemma_decimal_has_no_stop(n: nat)
    ensures
        !decimal(n).contains('.'),
    decreases n,
{
    if n >= 10 {
        lemma_decimal_has_no_stop(n / 10);
        let front = decimal(n / 10);
        assert forall|k: int| 0 <= k < decimal(n).len() implies decimal(n)[k] != '.' by {
            if k < front.len() {
                assert(decimal(n)[k] == front[k]);
                assert(front.contains(front[k]));
            }
        }
    }
}

/// Different numbers differ in decimal notation.
pub proof fn law_decimals_differ(a: nat, b: nat)
    requires
        decimal(a) == decimal(b),
    ensures
        a == b,
    decreases a,
{
    lemma_decimal_len(a / 10);
    lemma_decimal_len(b / 10);
    assert(decimal(a).last() == digit(a % 10));
    assert(decimal(b).last() == digit(b % 10));
    assert(a % 10 == b % 10);
    if a >= 10 && b >= 10 {
        assert(decimal(a).drop_last() =~= decimal(a / 10));
        assert(decimal(b).drop_last() =~= decimal(b / 10));
        law_decimals_differ(a / 10, b / 10);
    }
}

/// A decimal number has a digit.
proof fn lemma_decimal_len(n: nat)
    ensures
        decimal(n).len() >= 1,
    decreases n,
{
    if n >= 10 {
        lemma_decimal_len(n / 10);
    }
}

/// What stands in front of the names within a scope.
spec fn front(path: Seq<char>) -> Seq<char> {
    if path.len() == 0 {
        path
    } else {
        path.push('.')
    }
}

/// The path of a layer as seen from its block.
spec fn inner_name(layer: BlockLayer) -> Seq<char> {
    match layer {
        BlockLayer::Linear1 => "ff"@.push('.') + "linear1"@,
        BlockLayer::Linear2 => "ff"@.push('.') + "linear2"@,
        BlockLayer::Norm1 => "norm1"@,
        BlockLayer::Norm2 => "norm2"@,
        BlockLayer::Query => "wq"@,
        BlockLayer::Key => "wk"@,
        BlockLayer::Value => "wv"@,
        BlockLayer::OutProj => "out_proj"@,
    }
}

/// The path of a layer as seen from the model.
spec fn outer_name(layer: Layer) -> Seq<char> {
    match layer {
        Layer::TokEmb => "tok_emb"@,
        Layer::PosEmb => "pos_enb"@,
        Layer::FinalNorm => "final_norm"@,
        Layer::OutHead => "out_head"@,
        Layer::Block(i, inner) => block_name(i).push('.') + inner_name(inner),
    }
}

/// A path is the front of the model's scope and the path as seen from the model.
proof fn lemma_layer_path(root: Seq<char>, layer: Layer)
    ensures
        layer_path(root, layer) == front(root) + outer_name(layer),
{
    assert(forall|name: Seq<char>| #[trigger] child(root, name) =~= front(root) + name);
    if let Layer::Block(i, inner) = layer {
        lemma_decimal_len(i);
        reveal_strlit("ff");
        let path = block_path(root, i);
        assert(path.len() > 0);
        assert(layer_path(root, layer) =~= front(root) + outer_name(layer));
    }
}

/// The name of a block holds no full stop.
proof fn lemma_block_name_has_no_stop(i: nat, k: int)
    requires
        0 <= k < block_name(i).len(),
    ensures
        block_name(i)[k] != '.',
{
    reveal_strlit("transformer ");
    lemma_decimal_has_no_stop(i);
    if k >= 12 {
        assert(block_name(i)[k] == decimal(i)[k - 12]);
        assert(decimal(i).contains(decimal(i)[k - 12]));
    }
}

/// The length of the path of a layer as seen from its block, and the last character.
proof fn lemma_inner_name_ends(layer: BlockLayer)
    ensures
        (inner_name(layer).len(), inner_name(layer).last()) == match layer {
            BlockLayer::Linear1 => (10nat, '1'),
            BlockLayer::Linear2 => (10nat, '2'),
            BlockLayer::Norm1 => (5nat, '1'),
            BlockLayer::Norm2 => (5nat, '2'),
            BlockLayer::Query => (2nat, 'q'),
            BlockLayer::Key => (2nat, 'k'),
            BlockLayer::Value => (2nat, 'v'),
            BlockLayer::OutProj => (8nat, 'j'),
        },
{
    reveal_strlit("ff");
    reveal_strlit("linear1");
    reveal_strlit("linear2");
    reveal_strlit("norm1");
    reveal_strlit("norm2");
    reveal_strlit("wq");
    reveal_strlit("wk");
    reveal_strlit("wv");
    reveal_strlit("out_proj");
}

/// The layers of a block have different paths as seen from the block.
proof fn lemma_inner_names_differ(a: BlockLayer, b: BlockLayer)
    requires
        inner_name(a) == inner_name(b),
    ensures
        a == b,
{
    lemma_inner_name_ends(a);
    lemma_inner_name_ends(b);
}

/// A layer of a block and a layer beside the blocks have different paths.
proof fn lemma_block_and_model_names_differ(i: nat, inner: BlockLayer, layer: Layer)
    requires
        layer !is Block,
    ensures
        outer_name(Layer::Block(i, inner)) != outer_name(layer),
{
    reveal_strlit("tok_emb");
    reveal_strlit("pos_enb");
    reveal_strlit("final_norm");
    reveal_strlit("out_head");
    let k = block_name(i).len() as int;
    assert(outer_name(Layer::Block(i, inner))[k] == '.');
    if k < outer_name(layer).len() {
        assert(outer_name(layer)[k] != '.');
    }
}

/// Layers of blocks have the same path only where they are the same layer of the same block.
proof fn lemma_block_names_differ(i: nat, a: BlockLayer, j: nat, b: BlockLayer)
    requires
        outer_name(Layer::Block(i, a)) == outer_name(Layer::Block(j, b)),
    ensures
        i == j,
        a == b,
{
    let x = outer_name(Layer::Block(i, a));
    let y = outer_name(Layer::Block(j, b));
    let p = block_name(i).len() as int;
    let q = block_name(j).len() as int;
    assert(x[p] == '.');
    assert(y[q] == '.');
    if p < q {
        assert(y[p] == block_name(j)[p]);
        lemma_block_name_has_no_stop(j, p);
    } else if q < p {
        assert(x[q] == block_name(i)[q]);
        lemma_block_name_has_no_stop(i, q);
    }
    assert(x.take(p) =~= block_name(i));
    assert(y.take(q) =~= block_name(j));
    reveal_strlit("transformer ");
    assert(block_name(i).skip(12) =~= decimal(i));
    assert(block_name(j).skip(12) =~= decimal(j));
    law_decimals_differ(i, j);
    assert(x.skip(p + 1) =~= inner_name(a));
    assert(y.skip(q + 1) =~= inner_name(b));
    lemma_inner_names_differ(a, b);
}

/// No two layers of a model have the same path, and so no two layers share a variable.
pub proof fn law_layers_have_their_own_path(root: Seq<char>, a: Layer, b: Layer)
    requires
        layer_path(root, a) == layer_path(root, b),
    ensures
        a == b,
{
    lemma_layer_path(root, a);
    lemma_layer_path(root, b);
    let skipped = front(root).len() as int;
    assert(layer_path(root, a).skip(skipped) =~= outer_name(a));
    assert(layer_path(root, b).skip(skipped) =~= outer_name(b));
    match (a, b) {
        (Layer::Block(i, x), Layer::Block(j, y)) => {
            lemma_block_names_differ(i, x, j, y);
        },
        (Layer::Block(i, x), _) => {
            lemma_block_and_model_names_differ(i, x, b);
        },
        (_, Layer::Block(j, y)) => {
            lemma_block_and_model_names_differ(j, y, a);
        },
        _ => {
            reveal_strlit("tok_emb");
            reveal_strlit("pos_enb");
            reveal_strlit("final_norm");
            reveal_strlit("out_head");
            assert(outer_name(a)[0] == outer_name(b)[0]);
        },
    }
}

/// A number is written as the number without its last digit and that digit behind it, and a single
/// digit as the character of its value.
pub proof fn law_decimals_end_in_their_last_digit(n: nat, d: nat)
    requires
        d < 10,
    ensures
        decimal(d).len() == 1,
        decimal(d)[0] as u32 == '0' as u32 + d,
        n > 0 ==> decimal(10 * n + d) == decimal(n) + decimal(d),
{
    if n > 0 {
        assert((10 * n + d) / 10 == n && (10 * n + d) % 10 == d);
        assert(decimal(n).push(digit(d)) =~= decimal(n) + decimal(d));
    }
}

} // verus!
