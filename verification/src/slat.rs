//! A slat: one structural element, a named, layered pair of an origin and
//! a displacement. Its record line holds the three origin tokens, the three
//! displacement tokens and the layer, space-separated; the serialized form
//! appends the part index as an eighth field.
use vstd::prelude::*;
use vstd::string::*;

use crate::chars::{chars_of, push_char, split_chars, string_of, views_of};
use crate::error::HefError;
use crate::geometry::{triple_text, Point, TripleV, Vector};
use crate::num::{check_numeric, format_i64, parse_i64_token, spec_parse_i64};
use crate::text::{int_str, int_val, is_numeric_token, join_with, lemma_int_str,
    lemma_numeric_chars, lemma_split_join, split_on};

verus! {

/// Mathematical value of a slat.
pub struct SlatV {
    pub name: Seq<char>,
    pub layer: int,
    pub origin: TripleV,
    pub vector: TripleV,
}

impl SlatV {
    /// Coordinates are numeric tokens, the layer fits its field, and the
    /// name can stand on a line of its own.
    pub open spec fn wf(self) -> bool {
        self.origin.wf() && self.vector.wf() && i64::MIN <= self.layer <= i64::MAX && (forall|
            k: int,
        |
            0 <= k < self.name.len() ==> self.name[k] != '\n')
    }
}

/// A structural element: a named, layered origin-and-displacement pair.
#[derive(Debug)]
pub struct Slat {
    pub name: String,
    pub layer: i64,
    pub origin: Point,
    pub vector: Vector,
}

impl View for Slat {
    type V = SlatV;

    open spec fn view(&self) -> SlatV {
        SlatV {
            name: self.name@,
            layer: self.layer as int,
            origin: self.origin@,
            vector: self.vector@,
        }
    }
}

/// The record text of a slat without its part index: origin, displacement
/// and layer, space-separated.
pub open spec fn slat_line_text(s: SlatV) -> Seq<char> {
    triple_text(s.origin) + seq![' '] + triple_text(s.vector) + seq![' '] + int_str(s.layer)
}

/// What the first seven fields of a record denote: origin, displacement and
/// layer, or nothing when a coordinate or the layer is no valid number.
pub open spec fn spec_slat_core(fs: Seq<Seq<char>>) -> Option<(TripleV, TripleV, int)> {
    if is_numeric_token(fs[0]) && is_numeric_token(fs[1]) && is_numeric_token(fs[2])
        && is_numeric_token(fs[3]) && is_numeric_token(fs[4]) && is_numeric_token(fs[5])
        && spec_parse_i64(fs[6]) is Some {
        Some(
            (
                TripleV { x: fs[0], y: fs[1], z: fs[2] },
                TripleV { x: fs[3], y: fs[4], z: fs[5] },
                int_val(fs[6]),
            ),
        )
    } else {
        None
    }
}

/// What a seven-field record line denotes under a given part name.
pub open spec fn spec_parse_slat_line(s: Seq<char>, name: Seq<char>) -> Result<SlatV, HefError> {
    let fs = split_on(s, ' ');
    if fs.len() != 7 {
        Err(HefError::MalformedRecord)
    } else {
        match spec_slat_core(fs) {
            None => Err(HefError::InvalidNumber),
            Some(t) => Ok(SlatV { name: name, layer: t.2, origin: t.0, vector: t.1 }),
        }
    }
}

/// Checks the seven leading fields of a record and builds the two triples
/// and the layer.
pub(crate) fn parse_slat_core(fields: &Vec<Vec<char>>) -> (r: Result<
    (Point, Vector, i64),
    HefError,
>)
    requires
        fields@.len() >= 7,
    ensures
        match r {
            Ok(t) => spec_slat_core(views_of(fields@)) == Some(
                (t.0@, t.1@, t.2 as int),
            ),
            Err(e) => spec_slat_core(views_of(fields@)) == None::<(TripleV, TripleV, int)>
                && e == HefError::InvalidNumber,
        },
{
    proof {
        assert(forall|i: int|
            0 <= i < fields@.len() ==> views_of(fields@)[i] == #[trigger] fields@[i]@);
    }
    if !(check_numeric(&fields[0]) && check_numeric(&fields[1]) && check_numeric(&fields[2])
        && check_numeric(&fields[3]) && check_numeric(&fields[4]) && check_numeric(
        &fields[5],
    )) {
        return Err(HefError::InvalidNumber);
    }
    let layer = match parse_i64_token(&fields[6]) {
        Some(l) => l,
        None => {
            return Err(HefError::InvalidNumber);
        },
    };
    let origin = Point {
        x: string_of(&fields[0]),
        y: string_of(&fields[1]),
        z: string_of(&fields[2]),
    };
    let vector = Vector {
        x: string_of(&fields[3]),
        y: string_of(&fields[4]),
        z: string_of(&fields[5]),
    };
    Ok((origin, vector, layer))
}

impl Slat {
    /// Reads a slat from its seven-field record line, under the part name
    /// the record resolves to.
    pub fn from_hef_line(line: &str, name: String) -> (r: Result<Slat, HefError>)
        ensures
            match r {
                Ok(s) => spec_parse_slat_line(line@, name@) == Ok::<SlatV, HefError>(s@),
                Err(e) => spec_parse_slat_line(line@, name@) == Err::<SlatV, HefError>(e),
            },
    {
        let v = chars_of(line);
        let fields = split_chars(&v, ' ');
        proof {
            assert(views_of(fields@).len() == fields@.len());
        }
        if fields.len() != 7 {
            return Err(HefError::MalformedRecord);
        }
        match parse_slat_core(&fields) {
            Ok(t) => Ok(Slat { name, layer: t.2, origin: t.0, vector: t.1 }),
            Err(e) => Err(e),
        }
    }

    /// Writes the slat's record line without its part index.
    pub fn to_hef_line(&self) -> (r: String)
        ensures
            r@ == slat_line_text(self@),
    {
        let mut s = self.origin.to_hef_part();
        push_char(&mut s, ' ');
        let vp = self.vector.to_hef_part();
        s.append(vp.as_str());
        push_char(&mut s, ' ');
        let lp = format_i64(self.layer);
        s.append(lp.as_str());
        proof {
            assert(triple_text(self.origin@).push(' ') =~= triple_text(self.origin@)
                + seq![' ']);
            assert((triple_text(self.origin@) + seq![' '] + triple_text(self.vector@)).push(' ')
                =~= triple_text(self.origin@) + seq![' '] + triple_text(self.vector@)
                + seq![' ']);
        }
        s
    }
}

/// The bill-of-materials line of a slat under a given computed length:
/// `"<length> <layer> <name>"`, space-separated.
pub open spec fn bom_line_text(s: SlatV, length: Seq<char>) -> Seq<char> {
    length + seq![' '] + int_str(s.layer) + seq![' '] + s.name
}

impl Slat {
    /// Writes the slat's bill-of-materials line for the length text a
    /// caller derived for it: the length, the layer, and the part name.
    pub fn to_bom_line(&self, length: &str) -> (r: String)
        ensures
            r@ == bom_line_text(self@, length@),
    {
        let mut s = String::from_str(length);
        push_char(&mut s, ' ');
        let lp = format_i64(self.layer);
        s.append(lp.as_str());
        push_char(&mut s, ' ');
        s.append(self.name.as_str());
        proof {
            assert(length@.push(' ') =~= length@ + seq![' ']);
            assert((length@ + seq![' '] + int_str(self.layer as int)).push(' ') =~= length@
                + seq![' '] + int_str(self.layer as int) + seq![' ']);
        }
        s
    }
}

/// No character of a numeric token, nor of a rendered layer, is a space or
/// a newline.
pub proof fn lemma_token_chars_plain(s: SlatV)
    requires
        s.wf(),
    ensures
        forall|k: int| 0 <= k < s.origin.x.len() ==> s.origin.x[k] != ' ' && s.origin.x[k] != '\n',
        forall|k: int| 0 <= k < s.origin.y.len() ==> s.origin.y[k] != ' ' && s.origin.y[k] != '\n',
        forall|k: int| 0 <= k < s.origin.z.len() ==> s.origin.z[k] != ' ' && s.origin.z[k] != '\n',
        forall|k: int| 0 <= k < s.vector.x.len() ==> s.vector.x[k] != ' ' && s.vector.x[k] != '\n',
        forall|k: int| 0 <= k < s.vector.y.len() ==> s.vector.y[k] != ' ' && s.vector.y[k] != '\n',
        forall|k: int| 0 <= k < s.vector.z.len() ==> s.vector.z[k] != ' ' && s.vector.z[k] != '\n',
        forall|k: int|
            0 <= k < int_str(s.layer).len() ==> int_str(s.layer)[k] != ' ' && int_str(
                s.layer,
            )[k] != '\n',
{
    lemma_numeric_chars(s.origin.x);
    lemma_numeric_chars(s.origin.y);
    lemma_numeric_chars(s.origin.z);
    lemma_numeric_chars(s.vector.x);
    lemma_numeric_chars(s.vector.y);
    lemma_numeric_chars(s.vector.z);
    lemma_int_str(s.layer);
}

/// The seven fields of a slat's record line, in order.
pub open spec fn slat_tokens(s: SlatV) -> Seq<Seq<char>> {
    seq![
        s.origin.x,
        s.origin.y,
        s.origin.z,
        s.vector.x,
        s.vector.y,
        s.vector.z,
        int_str(s.layer),
    ]
}

/// The record line is its seven fields joined with single spaces.
pub proof fn lemma_slat_tokens_join(s: SlatV)
    ensures
        join_with(slat_tokens(s), ' ') == slat_line_text(s),
{
    let toks = slat_tokens(s);
    assert(join_with(toks, ' ') =~= slat_line_text(s)) by {
        reveal_with_fuel(join_with, 9);
        assert(toks.drop_first() =~= seq![
            s.origin.y,
            s.origin.z,
            s.vector.x,
            s.vector.y,
            s.vector.z,
            int_str(s.layer),
        ]);
        assert(toks.drop_first().drop_first() =~= seq![
            s.origin.z,
            s.vector.x,
            s.vector.y,
            s.vector.z,
            int_str(s.layer),
        ]);
        assert(toks.drop_first().drop_first().drop_first() =~= seq![
            s.vector.x,
            s.vector.y,
            s.vector.z,
            int_str(s.layer),
        ]);
        assert(toks.drop_first().drop_first().drop_first().drop_first() =~= seq![
            s.vector.y,
            s.vector.z,
            int_str(s.layer),
        ]);
        assert(toks.drop_first().drop_first().drop_first().drop_first().drop_first() =~= seq![
            s.vector.z,
            int_str(s.layer),
        ]);
        assert(toks.drop_first().drop_first().drop_first().drop_first().drop_first().drop_first()
            =~= seq![int_str(s.layer)]);
    }
}

/// Reading a slat's own record line back under its name recovers the slat:
/// the record leg of the round trip.
pub proof fn lemma_slat_line_round(s: SlatV)
    requires
        s.wf(),
    ensures
        spec_parse_slat_line(slat_line_text(s), s.name) == Ok::<SlatV, HefError>(s),
{
    let toks = slat_tokens(s);
    lemma_token_chars_plain(s);
    lemma_int_str(s.layer);
    lemma_split_join(toks, ' ');
    lemma_slat_tokens_join(s);
    let fs = split_on(slat_line_text(s), ' ');
    assert(fs == toks);
    assert(spec_parse_i64(fs[6]) is Some);
    assert(int_val(fs[6]) == s.layer);
    assert(spec_slat_core(fs) == Some((s.origin, s.vector, s.layer)));
}

} // verus!
