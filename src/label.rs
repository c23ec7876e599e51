use vstd::prelude::*;
use vstd::string::*;

verus! {

/// The characters that separate the segments of a label.
pub open spec fn is_delimiter(c: char) -> bool {
    c == '[' || c == ']' || c == '/'
}

/// A name that can stand inside a label segment without being confused with
/// the label's own structure.
pub open spec fn plain_name(s: Seq<char>) -> bool {
    forall|i: int| 0 <= i < s.len() ==> !is_delimiter(#[trigger] s[i])
}

pub open spec fn digit_char(d: nat) -> char {
    if d == 0 { '0' }
    else if d == 1 { '1' }
    else if d == 2 { '2' }
    else if d == 3 { '3' }
    else if d == 4 { '4' }
    else if d == 5 { '5' }
    else if d == 6 { '6' }
    else if d == 7 { '7' }
    else if d == 8 { '8' }
    else { '9' }
}

/// The decimal digits of `n`, most significant first, without leading zeros.
pub open spec fn decimal(n: nat) -> Seq<char>
    decreases n,
{
    if n < 10 {
        seq![digit_char(n)]
    } else {
        decimal(n / 10) + seq![digit_char(n % 10)]
    }
}

pub open spec fn wld_label_spec(wld: Seq<char>) -> Seq<char> {
    "World["@ + wld + "]"@
}

pub open spec fn texture_label_spec(name: Seq<char>) -> Seq<char> {
    "Texture["@ + name + "]"@
}

pub open spec fn material_label_spec(wld: Seq<char>, name: Seq<char>) -> Seq<char> {
    wld_label_spec(wld) + "/Material["@ + name + "]"@
}

pub open spec fn mesh_label_spec(wld: Seq<char>, name: Seq<char>) -> Seq<char> {
    wld_label_spec(wld) + "/Mesh["@ + name + "]"@
}

pub open spec fn primitive_label_spec(wld: Seq<char>, mesh: Seq<char>, index: nat) -> Seq<char> {
    mesh_label_spec(wld, mesh) + "/Primitive["@ + decimal(index) + "]"@
}

pub open spec fn scene_label_spec(wld: Seq<char>) -> Seq<char> {
    wld_label_spec(wld) + "/Map"@
}

/// The label of a world: `World[name]`.
pub fn wld_label(wld_name: &str) -> (r: String)
    ensures
        r@ == wld_label_spec(wld_name@),
{
    let mut r = String::from_str("World[");
    r.append(wld_name);
    r.append("]");
    r
}

/// The label of a material of a world: `World[w]/Material[name]`.
pub fn material_label(wld_name: &str, name: &str) -> (r: String)
    ensures
        r@ == material_label_spec(wld_name@, name@),
{
    let mut r = wld_label(wld_name);
    r.append("/Material[");
    r.append(name);
    r.append("]");
    r
}

/// The label of a texture of the archive: `Texture[name]`.
pub fn texture_label(name: &str) -> (r: String)
    ensures
        r@ == texture_label_spec(name@),
{
    let mut r = String::from_str("Texture[");
    r.append(name);
    r.append("]");
    r
}

/// The label of a mesh of a world: `World[w]/Mesh[name]`.
pub fn mesh_label(wld_name: &str, name: &str) -> (r: String)
    ensures
        r@ == mesh_label_spec(wld_name@, name@),
{
    let mut r = wld_label(wld_name);
    r.append("/Mesh[");
    r.append(name);
    r.append("]");
    r
}

/// The label of the scene of a world: `World[w]/Map`.
pub fn scene_label(wld_name: &str) -> (r: String)
    ensures
        r@ == scene_label_spec(wld_name@),
{
    let mut r = wld_label(wld_name);
    r.append("/Map");
    r
}

/// The label of a primitive of a mesh: `World[w]/Mesh[m]/Primitive[i]`.
pub fn primitive_label(wld_name: &str, mesh_name: &str, primitive_index: usize) -> (r: String)
    ensures
        r@ == primitive_label_spec(wld_name@, mesh_name@, primitive_index as nat),
{
    let mut r = mesh_label(wld_name, mesh_name);
    r.append("/Primitive[");
    push_decimal(&mut r, primitive_index);
    r.append("]");
    r
}

fn digit_str(d: usize) -> (r: &'static str)
    requires
        d < 10,
    ensures
        r@ == seq![digit_char(d as nat)],
{
    proof {
        reveal_strlit("0");
        reveal_strlit("1");
        reveal_strlit("2");
        reveal_strlit("3");
        reveal_strlit("4");
        reveal_strlit("5");
        reveal_strlit("6");
        reveal_strlit("7");
        reveal_strlit("8");
        reveal_strlit("9");
    }
    if d == 0 { "0" }
    else if d == 1 { "1" }
    else if d == 2 { "2" }
    else if d == 3 { "3" }
    else if d == 4 { "4" }
    else if d == 5 { "5" }
    else if d == 6 { "6" }
    else if d == 7 { "7" }
    else if d == 8 { "8" }
    else { "9" }
}

/// Appends the decimal digits of `n` to `s`.
fn push_decimal(s: &mut String, n: usize)
    ensures
        final(s)@ == old(s)@ + decimal(n as nat),
    decreases n,
{
    if n >= 10 {
        push_decimal(s, n / 10);
    }
    s.append(digit_str(n % 10));
    proof {
        assert(final(s)@ =~= old(s)@ + decimal(n as nat));
    }
}

} // verus!
