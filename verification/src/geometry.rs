//! The value types of the format: positions, displacements and per-axis
//! scale factors. Every coordinate is carried as its numeric text token,
//! the form in which the format stores it; the token grammar is `text`'s
//! `is_numeric_token`.
use vstd::prelude::*;
use vstd::string::*;

use crate::chars::{chars_of, find_from, push_char, split_chars, string_of, sub_chars, views_of};
use crate::error::HefError;
use crate::num::check_numeric;
use crate::text::{find_sep, is_numeric_token, lemma_find_sep_absent, lemma_find_sep_concat,
    lemma_numeric_chars, numeric_char, split_on};

verus! {

/// Mathematical value of a coordinate triple: the three tokens.
pub struct TripleV {
    pub x: Seq<char>,
    pub y: Seq<char>,
    pub z: Seq<char>,
}

impl TripleV {
    /// Every coordinate is a numeric token.
    pub open spec fn wf(self) -> bool {
        is_numeric_token(self.x) && is_numeric_token(self.y) && is_numeric_token(self.z)
    }
}

/// The text of a triple: its three tokens, space-separated.
pub open spec fn triple_text(t: TripleV) -> Seq<char> {
    t.x + seq![' '] + t.y + seq![' '] + t.z
}

/// What a three-token line denotes: the triple, or why it is refused.
pub open spec fn spec_parse_triple(s: Seq<char>) -> Result<TripleV, HefError> {
    let fields = split_on(s, ' ');
    if fields.len() != 3 {
        Err(HefError::MalformedRecord)
    } else if is_numeric_token(fields[0]) && is_numeric_token(fields[1]) && is_numeric_token(
        fields[2],
    ) {
        Ok(TripleV { x: fields[0], y: fields[1], z: fields[2] })
    } else {
        Err(HefError::InvalidNumber)
    }
}

/// Reads a three-token coordinate line.
pub(crate) fn parse_triple(v: &Vec<char>) -> (r: Result<(String, String, String), HefError>)
    ensures
        match r {
            Ok(t) => spec_parse_triple(v@) == Ok::<TripleV, HefError>(TripleV { x: t.0@, y: t.1@, z: t.2@ }),
            Err(e) => spec_parse_triple(v@) == Err::<TripleV, HefError>(e),
        },
{
    let fields = split_chars(v, ' ');
    proof {
        assert(views_of(fields@).len() == fields@.len());
    }
    if fields.len() != 3 {
        return Err(HefError::MalformedRecord);
    }
    proof {
        assert(views_of(fields@)[0] == fields@[0]@);
        assert(views_of(fields@)[1] == fields@[1]@);
        assert(views_of(fields@)[2] == fields@[2]@);
    }
    if !check_numeric(&fields[0]) || !check_numeric(&fields[1]) || !check_numeric(&fields[2]) {
        return Err(HefError::InvalidNumber);
    }
    let x = string_of(&fields[0]);
    let y = string_of(&fields[1]);
    let z = string_of(&fields[2]);
    Ok((x, y, z))
}

/// Builds the space-separated text of three tokens.
pub(crate) fn build_triple(x: &String, y: &String, z: &String) -> (r: String)
    ensures
        r@ == triple_text(TripleV { x: x@, y: y@, z: z@ }),
{
    let mut s = x.clone();
    push_char(&mut s, ' ');
    s.append(y.as_str());
    push_char(&mut s, ' ');
    s.append(z.as_str());
    proof {
        assert(x@.push(' ') =~= x@ + seq![' ']);
        assert((x@ + seq![' '] + y@).push(' ') =~= x@ + seq![' '] + y@ + seq![' ']);
    }
    s
}

/// Reading a triple's own space-separated text recovers the triple: the
/// coordinate leg of the round trip.
pub proof fn lemma_triple_round(t: TripleV)
    requires
        t.wf(),
    ensures
        spec_parse_triple(triple_text(t)) == Ok::<TripleV, HefError>(t),
{
    let toks = seq![t.x, t.y, t.z];
    lemma_numeric_chars(t.x);
    lemma_numeric_chars(t.y);
    lemma_numeric_chars(t.z);
    assert(forall|i: int, k: int|
        0 <= i < toks.len() && 0 <= k < toks[i].len() ==> toks[i][k] != ' ') by {
        assert(toks[0] == t.x && toks[1] == t.y && toks[2] == t.z);
    }
    crate::text::lemma_split_join(toks, ' ');
    assert(crate::text::join_with(toks, ' ') =~= triple_text(t)) by {
        reveal_with_fuel(crate::text::join_with, 4);
        assert(toks.drop_first() =~= seq![t.y, t.z]);
        assert(toks.drop_first().drop_first() =~= seq![t.z]);
    }
    let fields = split_on(triple_text(t), ' ');
    assert(fields == toks);
}

/// An absolute position, held as three numeric text tokens.
#[derive(Debug)]
pub struct Point {
    pub x: String,
    pub y: String,
    pub z: String,
}

impl View for Point {
    type V = TripleV;

    open spec fn view(&self) -> TripleV {
        TripleV { x: self.x@, y: self.y@, z: self.z@ }
    }
}

impl Point {
    /// Reads a position from its `"<x> <y> <z>"` part of a record.
    pub fn from_hef_part(part: &str) -> (r: Result<Point, HefError>)
        ensures
            match r {
                Ok(p) => spec_parse_triple(part@) == Ok::<TripleV, HefError>(p@),
                Err(e) => spec_parse_triple(part@) == Err::<TripleV, HefError>(e),
            },
    {
        let v = chars_of(part);
        match parse_triple(&v) {
            Ok(t) => Ok(Point { x: t.0, y: t.1, z: t.2 }),
            Err(e) => Err(e),
        }
    }

    /// Writes the position back as its three tokens, space-separated.
    pub fn to_hef_part(&self) -> (r: String)
        ensures
            r@ == triple_text(self@),
    {
        build_triple(&self.x, &self.y, &self.z)
    }
}

/// A displacement, held as three numeric text tokens.
#[derive(Debug)]
pub struct Vector {
    pub x: String,
    pub y: String,
    pub z: String,
}

impl View for Vector {
    type V = TripleV;

    open spec fn view(&self) -> TripleV {
        TripleV { x: self.x@, y: self.y@, z: self.z@ }
    }
}

impl Vector {
    /// Reads a displacement from its `"<x> <y> <z>"` part of a record.
    pub fn from_hef_part(part: &str) -> (r: Result<Vector, HefError>)
        ensures
            match r {
                Ok(p) => spec_parse_triple(part@) == Ok::<TripleV, HefError>(p@),
                Err(e) => spec_parse_triple(part@) == Err::<TripleV, HefError>(e),
            },
    {
        let v = chars_of(part);
        match parse_triple(&v) {
            Ok(t) => Ok(Vector { x: t.0, y: t.1, z: t.2 }),
            Err(e) => Err(e),
        }
    }

    /// Writes the displacement back as its three tokens, space-separated.
    pub fn to_hef_part(&self) -> (r: String)
        ensures
            r@ == triple_text(self@),
    {
        build_triple(&self.x, &self.y, &self.z)
    }
}

/// Per-axis scale factors, held as three numeric text tokens. The default
/// is the identity scale, one on every axis.
#[derive(Debug)]
pub struct Variant {
    pub x: String,
    pub y: String,
    pub z: String,
}

impl View for Variant {
    type V = TripleV;

    open spec fn view(&self) -> TripleV {
        TripleV { x: self.x@, y: self.y@, z: self.z@ }
    }
}

/// The identity scale: the token `1` on every axis.
pub open spec fn unit_triple() -> TripleV {
    TripleV { x: seq!['1'], y: seq!['1'], z: seq!['1'] }
}

impl Default for Variant {
    /// The identity scale.
    fn default() -> (r: Variant)
        ensures
            r@ == unit_triple(),
    {
        let mut x = String::new();
        push_char(&mut x, '1');
        let mut y = String::new();
        push_char(&mut y, '1');
        let mut z = String::new();
        push_char(&mut z, '1');
        proof {
            assert(Seq::<char>::empty().push('1') =~= seq!['1']);
        }
        Variant { x, y, z }
    }
}

impl Variant {
    /// A scale from its three tokens.
    pub fn new(x: String, y: String, z: String) -> (r: Variant)
        ensures
            r@ == (TripleV { x: x@, y: y@, z: z@ }),
    {
        Variant { x, y, z }
    }

    /// Writes the scale as the one-line document the format stores:
    /// `{"x":<x>,"y":<y>,"z":<z>}`, the canonical form the writer produces.
    pub fn to_json_line(&self) -> (r: String)
        ensures
            r@ == variant_line_text(self@),
    {
        let mut s = String::new();
        s.append("{\"x\":");
        s.append(self.x.as_str());
        s.append(",\"y\":");
        s.append(self.y.as_str());
        s.append(",\"z\":");
        s.append(self.z.as_str());
        s.append("}");
        proof {
            reveal_strlit("{\"x\":");
            reveal_strlit(",\"y\":");
            reveal_strlit(",\"z\":");
            reveal_strlit("}");
            assert("{\"x\":"@ =~= key_x());
            assert(",\"y\":"@ =~= seq![','] + key_y());
            assert(",\"z\":"@ =~= seq![','] + key_z());
            assert("}"@ =~= seq!['}']);
            assert(Seq::<char>::empty() + key_x() =~= key_x());
            assert(key_x() + self.x@ + (seq![','] + key_y()) + self.y@ + (seq![','] + key_z())
                + self.z@ + seq!['}'] =~= variant_line_text(self@));
        }
        s
    }
}

/// The opening of the scale document, through the first key.
pub open spec fn key_x() -> Seq<char> {
    seq!['{', '"', 'x', '"', ':']
}

/// The second key of the scale document, after its comma.
pub open spec fn key_y() -> Seq<char> {
    seq!['"', 'y', '"', ':']
}

/// The third key of the scale document, after its comma.
pub open spec fn key_z() -> Seq<char> {
    seq!['"', 'z', '"', ':']
}

/// The canonical one-line document of a scale.
pub open spec fn variant_line_text(t: TripleV) -> Seq<char> {
    key_x() + t.x + seq![','] + key_y() + t.y + seq![','] + key_z() + t.z + seq!['}']
}

/// What a variant line denotes: the scale, when the line is the canonical
/// `{"x":<num>,"y":<num>,"z":<num>}` form, with the keys in that order and
/// no spare whitespace.
pub open spec fn spec_parse_variant(u: Seq<char>) -> Option<TripleV> {
    if u.len() < 5 || u.take(5) != key_x() {
        None
    } else {
        let r1 = u.skip(5);
        let i1 = find_sep(r1, ',') as int;
        if i1 == r1.len() || !is_numeric_token(r1.take(i1)) {
            None
        } else {
            let r2 = r1.skip(i1 + 1);
            if r2.len() < 4 || r2.take(4) != key_y() {
                None
            } else {
                let r3 = r2.skip(4);
                let i2 = find_sep(r3, ',') as int;
                if i2 == r3.len() || !is_numeric_token(r3.take(i2)) {
                    None
                } else {
                    let r4 = r3.skip(i2 + 1);
                    if r4.len() < 4 || r4.take(4) != key_z() {
                        None
                    } else {
                        let r5 = r4.skip(4);
                        if find_sep(r5, ',') != r5.len() || r5.len() == 0 || r5.last() != '}'
                            || !is_numeric_token(r5.take(r5.len() - 1)) {
                            None
                        } else {
                            Some(
                                TripleV {
                                    x: r1.take(i1),
                                    y: r3.take(i2),
                                    z: r5.take(r5.len() - 1),
                                },
                            )
                        }
                    }
                }
            }
        }
    }
}

/// Reads the canonical scale document.
pub(crate) fn parse_variant_chars(v: &Vec<char>) -> (r: Option<(String, String, String)>)
    ensures
        match r {
            Some(t) => spec_parse_variant(v@) == Some(
                TripleV { x: t.0@, y: t.1@, z: t.2@ },
            ),
            None => spec_parse_variant(v@) == None::<TripleV>,
        },
{
    if v.len() < 5 {
        return None;
    }
    if !(v[0] == '{' && v[1] == '"' && v[2] == 'x' && v[3] == '"' && v[4] == ':') {
        proof {
            assert(v@.take(5) != key_x());
        }
        return None;
    }
    proof {
        assert(v@.take(5) =~= key_x());
    }
    let ghost r1 = v@.skip(5);
    let c1 = find_from(v, 5, ',');
    proof {
        assert(c1 - 5 == find_sep(r1, ','));
    }
    if c1 == v.len() {
        return None;
    }
    let xs = sub_chars(v, 5, c1);
    proof {
        assert(xs@ =~= r1.take(c1 - 5));
    }
    if !check_numeric(&xs) {
        return None;
    }
    let ghost r2 = r1.skip(c1 - 5 + 1);
    proof {
        assert(r2 =~= v@.skip(c1 + 1));
    }
    if v.len() - c1 < 5 {
        return None;
    }
    if !(v[c1 + 1] == '"' && v[c1 + 2] == 'y' && v[c1 + 3] == '"' && v[c1 + 4] == ':') {
        proof {
            assert(r2[0] == v@[c1 + 1]);
            assert(r2[1] == v@[c1 + 2]);
            assert(r2[2] == v@[c1 + 3]);
            assert(r2[3] == v@[c1 + 4]);
            assert(r2.take(4) != key_y());
        }
        return None;
    }
    proof {
        assert(r2.take(4) =~= key_y());
    }
    let p3 = c1 + 5;
    let ghost r3 = r2.skip(4);
    proof {
        assert(r3 =~= v@.skip(p3 as int));
    }
    let c2 = find_from(v, p3, ',');
    proof {
        assert(c2 - p3 == find_sep(r3, ','));
    }
    if c2 == v.len() {
        return None;
    }
    let ys = sub_chars(v, p3, c2);
    proof {
        assert(ys@ =~= r3.take(c2 - p3));
    }
    if !check_numeric(&ys) {
        return None;
    }
    let ghost r4 = r3.skip(c2 - p3 + 1);
    proof {
        assert(r4 =~= v@.skip(c2 + 1));
    }
    if v.len() - c2 < 5 {
        return None;
    }
    if !(v[c2 + 1] == '"' && v[c2 + 2] == 'z' && v[c2 + 3] == '"' && v[c2 + 4] == ':') {
        proof {
            assert(r4[0] == v@[c2 + 1]);
            assert(r4[1] == v@[c2 + 2]);
            assert(r4[2] == v@[c2 + 3]);
            assert(r4[3] == v@[c2 + 4]);
            assert(r4.take(4) != key_z());
        }
        return None;
    }
    proof {
        assert(r4.take(4) =~= key_z());
    }
    let p5 = c2 + 5;
    let ghost r5 = r4.skip(4);
    proof {
        assert(r5 =~= v@.skip(p5 as int));
    }
    let c3 = find_from(v, p5, ',');
    proof {
        assert(c3 - p5 == find_sep(r5, ','));
    }
    if c3 != v.len() {
        return None;
    }
    if p5 == v.len() {
        return None;
    }
    proof {
        assert(r5.last() == v@[v@.len() - 1]);
    }
    if !(v[v.len() - 1] == '}') {
        return None;
    }
    let zs = sub_chars(v, p5, v.len() - 1);
    proof {
        assert(zs@ =~= r5.take(r5.len() - 1));
    }
    if !check_numeric(&zs) {
        return None;
    }
    Some((string_of(&xs), string_of(&ys), string_of(&zs)))
}

/// Reading the canonical scale document back recovers the scale: the
/// variant leg of the round trip.
#[verifier::rlimit(50)]
pub proof fn lemma_variant_round(t: TripleV)
    requires
        t.wf(),
    ensures
        spec_parse_variant(variant_line_text(t)) == Some(t),
{
    let u = variant_line_text(t);
    lemma_numeric_chars(t.x);
    lemma_numeric_chars(t.y);
    lemma_numeric_chars(t.z);
    assert(u.take(5) =~= key_x());
    let r1 = u.skip(5);
    assert(r1 =~= t.x + (seq![','] + (key_y() + t.y + seq![','] + key_z() + t.z + seq!['}'])));
    lemma_find_sep_concat(
        t.x,
        seq![','] + (key_y() + t.y + seq![','] + key_z() + t.z + seq!['}']),
        ',',
    );
    let i1 = find_sep(r1, ',') as int;
    assert(i1 == t.x.len());
    assert(r1.take(i1) =~= t.x);
    let r2 = r1.skip(i1 + 1);
    assert(r2 =~= key_y() + t.y + seq![','] + key_z() + t.z + seq!['}']);
    assert(r2.take(4) =~= key_y());
    let r3 = r2.skip(4);
    assert(r3 =~= t.y + (seq![','] + (key_z() + t.z + seq!['}'])));
    lemma_find_sep_concat(t.y, seq![','] + (key_z() + t.z + seq!['}']), ',');
    let i2 = find_sep(r3, ',') as int;
    assert(i2 == t.y.len());
    assert(r3.take(i2) =~= t.y);
    let r4 = r3.skip(i2 + 1);
    assert(r4 =~= key_z() + t.z + seq!['}']);
    assert(r4.take(4) =~= key_z());
    let r5 = r4.skip(4);
    assert(r5 =~= t.z + seq!['}']);
    assert(forall|k: int| 0 <= k < r5.len() ==> r5[k] != ',') by {
        assert(forall|k: int| 0 <= k < t.z.len() ==> numeric_char(#[trigger] t.z[k]));
        assert(r5[r5.len() - 1] == '}');
        assert(forall|k: int| 0 <= k < t.z.len() ==> r5[k] == #[trigger] t.z[k]);
    }
    lemma_find_sep_absent(r5, ',');
    assert(r5.last() == '}');
    assert(r5.take(r5.len() - 1) =~= t.z);
}

} // verus!
