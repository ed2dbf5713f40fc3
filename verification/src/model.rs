//! The aggregate root: a named assembly of slats under one scale, with two
//! opaque one-line metadata documents, and the codec that reads and writes
//! the whole interchange document.
//!
//! The document layout, line by line: three fixed magic lines, the model
//! name, the parameters document, the scale document, the properties
//! document, the part count, the part-name table, and one record per slat.
//! The part table is deduplicated in first-seen order, and every record
//! names its part by table index in its eighth field.
use vstd::prelude::*;
use vstd::string::*;

use crate::chars::{chars_of, eq_chars, push_char, split_chars, string_of, views_of};
use crate::error::HefError;
use crate::geometry::{key_x, key_y, key_z, lemma_variant_round, spec_parse_variant,
    variant_line_text, TripleV, Variant};
use crate::num::{format_usize, parse_usize_token, spec_parse_i64, spec_parse_usize};
use crate::slat::{bom_line_text, lemma_slat_tokens_join, lemma_token_chars_plain, slat_line_text,
    slat_tokens, spec_slat_core, Slat, SlatV};
use crate::text::{dec_str, int_str, int_val, lemma_dec_str, lemma_dec_str_chars, lemma_int_str,
    lemma_join_push, lemma_numeric_chars, lemma_split_join, lemma_split_lines, lines_text,
    numeric_char, split_on};

verus! {

/// Whether a text is one valid JSON document: the judgement of the JSON
/// parser, named so that contracts can speak of it.
pub uninterp spec fn json_ok(s: Seq<char>) -> bool;

/// Relies on `serde_json::from_str::<Value>`: whether the text is one valid
/// JSON document. The result depends on the characters alone.
#[verifier::external_body]
fn check_json(s: &str) -> (r: bool)
    ensures
        r == json_ok(s@),
{
    serde_json::from_str::<serde_json::Value>(s).is_ok()
}

/// The first magic line.
pub open spec fn magic1() -> Seq<char> {
    seq!['H', 'y', 'p', 'e', 'r', 'w', 'o', 'o', 'd', ' ', 'E', 'x', 'c', 'h', 'a', 'n', 'g', 'e',
        ' ', 'F', 'o', 'r', 'm', 'a', 't']
}

/// The second magic line.
pub open spec fn magic2() -> Seq<char> {
    seq!['V', 'e', 'r', 's', 'i', 'o', 'n', ' ', '1']
}

/// The third magic line.
pub open spec fn magic3() -> Seq<char> {
    seq!['h', 'y', 'p', 'e', 'r', 'w', 'o', 'o', 'd', '.', 'o', 'r', 'g']
}

/// The views of a sequence of strings.
pub open spec fn string_views(ss: Seq<String>) -> Seq<Seq<char>> {
    ss.map_values(|s: String| s@)
}

/// The views of a sequence of slats.
pub open spec fn slat_views(ss: Seq<Slat>) -> Seq<SlatV> {
    ss.map_values(|s: Slat| s@)
}

/// The names of a sequence of slats, in order.
pub open spec fn slat_names(ss: Seq<SlatV>) -> Seq<Seq<char>> {
    ss.map_values(|s: SlatV| s.name)
}

/// The part table of a sequence of names: each distinct name once, in
/// first-seen order.
pub open spec fn first_seen(names: Seq<Seq<char>>) -> Seq<Seq<char>>
    decreases names.len(),
{
    if names.len() == 0 {
        Seq::empty()
    } else {
        let p = first_seen(names.drop_last());
        if p.contains(names.last()) {
            p
        } else {
            p.push(names.last())
        }
    }
}

/// The index of the first occurrence of `x`, or the length when absent.
pub open spec fn idx_of(parts: Seq<Seq<char>>, x: Seq<char>) -> int
    decreases parts.len(),
{
    if parts.len() == 0 {
        0
    } else if parts[0] == x {
        0
    } else {
        1 + idx_of(parts.drop_first(), x)
    }
}

/// The law of the part table: deduplicating a name sequence in first-seen
/// order yields a table without duplicates that holds exactly the names
/// seen, and no more entries than names.
pub proof fn lemma_part_table(names: Seq<Seq<char>>)
    ensures
        first_seen(names).len() <= names.len(),
        forall|i: int, j: int|
            0 <= i < j < first_seen(names).len() ==> first_seen(names)[i] != first_seen(names)[j],
        forall|i: int| 0 <= i < names.len() ==> first_seen(names).contains(#[trigger] names[i]),
        forall|k: int|
            0 <= k < first_seen(names).len() ==> names.contains(#[trigger] first_seen(names)[k]),
    decreases names.len(),
{
    if names.len() > 0 {
        let prior = names.drop_last();
        lemma_part_table(prior);
        let p = first_seen(prior);
        let fs = first_seen(names);
        let last = names.last();
        assert(forall|i: int| 0 <= i < prior.len() ==> #[trigger] prior[i] == names[i]);
        if !p.contains(last) {
            assert(fs == p.push(last));
            assert forall|i: int, j: int| 0 <= i < j < fs.len() implies fs[i] != fs[j] by {
                if j < p.len() {
                    assert(fs[i] == p[i] && fs[j] == p[j]);
                } else {
                    assert(fs[j] == last && fs[i] == p[i]);
                    if p[i] == last {
                        assert(p.contains(last));
                    }
                }
            }
        }
        assert forall|i: int| 0 <= i < names.len() implies fs.contains(names[i]) by {
            if i < names.len() - 1 {
                assert(p.contains(prior[i]));
                let w = choose|w: int| 0 <= w < p.len() && p[w] == names[i];
                assert(fs[w] == names[i]);
            } else {
                if p.contains(last) {
                    let w = choose|w: int| 0 <= w < p.len() && p[w] == last;
                    assert(fs[w] == last);
                } else {
                    assert(fs[p.len() as int] == last);
                }
            }
        }
        assert forall|k: int| 0 <= k < fs.len() implies names.contains(fs[k]) by {
            if k < p.len() {
                let w = choose|w: int| 0 <= w < prior.len() && prior[w] == p[k];
                assert(names[w] == fs[k]);
            } else {
                assert(fs[k] == last);
                assert(names[names.len() - 1] == last);
            }
        }
    }
}

/// Every name the table holds resolves to itself through its index.
pub proof fn lemma_idx_of(parts: Seq<Seq<char>>, x: Seq<char>)
    requires
        parts.contains(x),
    ensures
        0 <= idx_of(parts, x) < parts.len(),
        parts[idx_of(parts, x)] == x,
    decreases parts.len(),
{
    if parts[0] != x {
        let df = parts.drop_first();
        let w = choose|w: int| 0 <= w < parts.len() && parts[w] == x;
        assert(df[w - 1] == x);
        assert(df.contains(x));
        lemma_idx_of(df, x);
    }
}

/// Mathematical value of a model.
pub struct ModelV {
    pub name: Seq<char>,
    pub parameters: Seq<char>,
    pub properties: Seq<char>,
    pub variant: TripleV,
    pub slats: Seq<SlatV>,
}

impl ModelV {
    /// The name fits on a line, both documents are one-line JSON, the
    /// scale is well-formed, every slat is well-formed, and the slats can
    /// be counted.
    pub open spec fn wf(self) -> bool {
        (forall|k: int| 0 <= k < self.name.len() ==> self.name[k] != '\n') && json_ok(
            self.parameters,
        ) && (forall|k: int| 0 <= k < self.parameters.len() ==> self.parameters[k] != '\n')
            && json_ok(self.properties) && (forall|k: int|
            0 <= k < self.properties.len() ==> self.properties[k] != '\n') && self.variant.wf()
            && (forall|i: int| 0 <= i < self.slats.len() ==> #[trigger] self.slats[i].wf())
            && self.slats.len() <= usize::MAX
    }
}

/// One record line of the serialized form: the slat's seven fields and its
/// part index.
pub open spec fn record_text(s: SlatV, parts: Seq<Seq<char>>) -> Seq<char> {
    slat_line_text(s) + seq![' '] + dec_str(idx_of(parts, s.name) as nat)
}

/// Every line of a model's serialized form, in order.
pub open spec fn spec_model_lines(m: ModelV) -> Seq<Seq<char>> {
    let parts = first_seen(slat_names(m.slats));
    seq![
        magic1(),
        magic2(),
        magic3(),
        m.name,
        m.parameters,
        variant_line_text(m.variant),
        m.properties,
        dec_str(parts.len() as nat),
    ] + parts + Seq::new(m.slats.len(), |i: int| record_text(m.slats[i], parts))
}

/// A model's serialized form: its lines, each closed by a newline.
pub open spec fn spec_to_hef(m: ModelV) -> Seq<char> {
    lines_text(spec_model_lines(m))
}

/// What one record line denotes against a part table.
pub open spec fn spec_parse_record(line: Seq<char>, parts: Seq<Seq<char>>) -> Result<
    SlatV,
    HefError,
> {
    let fs = split_on(line, ' ');
    if fs.len() != 8 {
        Err(HefError::MalformedRecord)
    } else {
        match spec_slat_core(fs) {
            None => Err(HefError::InvalidNumber),
            Some(t) => match spec_parse_usize(fs[7]) {
                None => Err(HefError::InvalidNumber),
                Some(idx) => if idx >= parts.len() {
                    Err(HefError::UnknownPartIndex)
                } else {
                    Ok(SlatV { name: parts[idx as int], layer: t.2, origin: t.0, vector: t.1 })
                },
            },
        }
    }
}

/// What the record region denotes: its slats in order, blank lines
/// skipped, the first failure aborting the whole parse.
pub open spec fn spec_parse_records(ls: Seq<Seq<char>>, parts: Seq<Seq<char>>) -> Result<
    Seq<SlatV>,
    HefError,
>
    decreases ls.len(),
{
    if ls.len() == 0 {
        Ok(Seq::empty())
    } else if ls[0].len() == 0 {
        spec_parse_records(ls.drop_first(), parts)
    } else {
        match spec_parse_record(ls[0], parts) {
            Err(e) => Err(e),
            Ok(sv) => match spec_parse_records(ls.drop_first(), parts) {
                Err(e) => Err(e),
                Ok(rest) => Ok(seq![sv] + rest),
            },
        }
    }
}

/// What a whole document denotes. The three magic lines are validated, not
/// merely consumed; the name is read verbatim; the two metadata documents
/// must be valid JSON and are kept verbatim; the scale document must be in
/// canonical form; the part count must equal the table it declares; every
/// record resolves its part index against the table.
pub open spec fn spec_parse(s: Seq<char>) -> Result<ModelV, HefError> {
    let ls = split_on(s, '\n');
    if ls.len() < 8 {
        Err(HefError::MalformedHeader)
    } else if ls[0] != magic1() || ls[1] != magic2() || ls[2] != magic3() {
        Err(HefError::MalformedHeader)
    } else if !json_ok(ls[4]) {
        Err(HefError::InvalidDocument)
    } else {
        match spec_parse_variant(ls[5]) {
            None => Err(HefError::InvalidDocument),
            Some(var) => if !json_ok(ls[6]) {
                Err(HefError::InvalidDocument)
            } else {
                match spec_parse_usize(ls[7]) {
                    None => Err(HefError::InvalidNumber),
                    Some(n) => if ls.len() - 8 < n {
                        Err(HefError::PartCountMismatch)
                    } else {
                        let parts = ls.subrange(8, 8 + n);
                        match spec_parse_records(ls.skip(8 + n), parts) {
                            Err(e) => Err(e),
                            Ok(slats) => Ok(
                                ModelV {
                                    name: ls[3],
                                    parameters: ls[4],
                                    properties: ls[6],
                                    variant: var,
                                    slats: slats,
                                },
                            ),
                        }
                    },
                }
            },
        }
    }
}

/// A named assembly of slats under one scale, with two opaque one-line
/// JSON metadata documents, kept verbatim and never interpreted.
#[derive(Debug)]
pub struct Model {
    pub name: String,
    pub parameters: String,
    pub properties: String,
    pub variant: Variant,
    pub slats: Vec<Slat>,
}

impl View for Model {
    type V = ModelV;

    open spec fn view(&self) -> ModelV {
        ModelV {
            name: self.name@,
            parameters: self.parameters@,
            properties: self.properties@,
            variant: self.variant@,
            slats: slat_views(self.slats@),
        }
    }
}

/// Whether some string of the vector holds exactly the characters of `x`.
fn contains_str(parts: &Vec<String>, x: &String) -> (b: bool)
    ensures
        b == string_views(parts@).contains(x@),
{
    let mut i: usize = 0;
    while i < parts.len()
        invariant
            i <= parts.len(),
            forall|j: int| 0 <= j < i ==> string_views(parts@)[j] != x@,
        decreases parts.len() - i,
    {
        if parts[i] == *x {
            proof {
                assert(string_views(parts@)[i as int] == x@);
            }
            return true;
        }
        i += 1;
    }
    proof {
        if string_views(parts@).contains(x@) {
            let w = choose|w: int|
                0 <= w < string_views(parts@).len() && string_views(parts@)[w] == x@;
            assert(string_views(parts@)[w] != x@);
        }
    }
    false
}

proof fn lemma_idx_of_run(parts: Seq<Seq<char>>, x: Seq<char>, i: int)
    requires
        0 <= i <= parts.len(),
        forall|j: int| 0 <= j < i ==> parts[j] != x,
        i < parts.len() ==> parts[i] == x,
    ensures
        idx_of(parts, x) == i,
    decreases parts.len(),
{
    if parts.len() == 0 || i == 0 {
    } else {
        assert(parts[0] != x);
        let df = parts.drop_first();
        assert(forall|j: int| 0 <= j < df.len() ==> #[trigger] df[j] == parts[j + 1]);
        lemma_idx_of_run(df, x, i - 1);
    }
}

/// The position of `x` in the part table, or the table's length when it is
/// absent.
fn index_of_str(parts: &Vec<String>, x: &String) -> (r: usize)
    ensures
        r as int == idx_of(string_views(parts@), x@),
        r <= parts@.len(),
{
    let mut i: usize = 0;
    while i < parts.len()
        invariant
            i <= parts.len(),
            forall|j: int| 0 <= j < i ==> string_views(parts@)[j] != x@,
        decreases parts.len() - i,
    {
        if parts[i] == *x {
            proof {
                assert(string_views(parts@)[i as int] == x@);
                lemma_idx_of_run(string_views(parts@), x@, i as int);
            }
            return i;
        }
        i += 1;
    }
    proof {
        lemma_idx_of_run(string_views(parts@), x@, parts@.len() as int);
    }
    i
}

/// Appends one line and its terminator.
fn push_line(out: &mut String, line: &str)
    ensures
        final(out)@ == old(out)@ + line@ + seq!['\n'],
{
    out.append(line);
    push_char(out, '\n');
    proof {
        assert((old(out)@ + line@).push('\n') =~= old(out)@ + line@ + seq!['\n']);
    }
}

impl Model {
    /// Reads a whole document. The entire input is consumed before
    /// anything is returned; the first failure aborts the parse whole.
    pub fn from_hef(input: &str) -> (r: Result<Model, HefError>)
        ensures
            match r {
                Ok(m) => spec_parse(input@) == Ok::<ModelV, HefError>(m@),
                Err(e) => spec_parse(input@) == Err::<ModelV, HefError>(e),
            },
    {
        let cs = chars_of(input);
        let lines = split_chars(&cs, '\n');
        let ghost ls = views_of(lines@);
        proof {
            assert(forall|i: int| 0 <= i < lines@.len() ==> ls[i] == #[trigger] lines@[i]@);
        }
        if lines.len() < 8 {
            return Err(HefError::MalformedHeader);
        }
        let m1 = chars_of("Hyperwood Exchange Format");
        let m2 = chars_of("Version 1");
        let m3 = chars_of("hyperwood.org");
        proof {
            reveal_strlit("Hyperwood Exchange Format");
            reveal_strlit("Version 1");
            reveal_strlit("hyperwood.org");
            assert(m1@ =~= magic1());
            assert(m2@ =~= magic2());
            assert(m3@ =~= magic3());
        }
        if !eq_chars(&lines[0], &m1) || !eq_chars(&lines[1], &m2) || !eq_chars(&lines[2], &m3) {
            return Err(HefError::MalformedHeader);
        }
        let name = string_of(&lines[3]);
        let parameters = string_of(&lines[4]);
        if !check_json(parameters.as_str()) {
            return Err(HefError::InvalidDocument);
        }
        let variant = match crate::geometry::parse_variant_chars(&lines[5]) {
            None => {
                return Err(HefError::InvalidDocument);
            },
            Some(t) => Variant::new(t.0, t.1, t.2),
        };
        let properties = string_of(&lines[6]);
        if !check_json(properties.as_str()) {
            return Err(HefError::InvalidDocument);
        }
        let n = match parse_usize_token(&lines[7]) {
            None => {
                return Err(HefError::InvalidNumber);
            },
            Some(n) => n,
        };
        if lines.len() - 8 < n {
            return Err(HefError::PartCountMismatch);
        }
        let mut parts: Vec<String> = Vec::new();
        let mut j: usize = 0;
        proof {
            assert(string_views(parts@) =~= ls.subrange(8, 8));
        }
        while j < n
            invariant
                j <= n,
                lines@.len() >= 8 + n,
                lines@.len() <= usize::MAX,
                ls == views_of(lines@),
                forall|i: int| 0 <= i < lines@.len() ==> ls[i] == #[trigger] lines@[i]@,
                string_views(parts@) == ls.subrange(8, 8 + j),
            decreases n - j,
        {
            let ghost prev = string_views(parts@);
            parts.push(string_of(&lines[8 + j]));
            proof {
                assert(string_views(parts@) =~= prev.push(ls[8 + j]));
                assert(ls.subrange(8, 8 + j + 1) =~= ls.subrange(8, 8 + j).push(ls[8 + j]));
            }
            j += 1;
        }
        let ghost pv = ls.subrange(8, 8 + n);
        let ghost r0 = ls.skip(8 + n);
        let mut slats: Vec<Slat> = Vec::new();
        let mut i: usize = 8 + n;
        proof {
            assert(slat_views(slats@) =~= Seq::<SlatV>::empty());
            assert(ls.skip(i as int) == r0);
            assert(ls == split_on(input@, '\n'));
            assert(ls[0] == magic1() && ls[1] == magic2() && ls[2] == magic3());
            assert(json_ok(ls[4]) && json_ok(ls[6]));
            assert(spec_parse_variant(ls[5]) == Some(variant@));
            assert(spec_parse_usize(ls[7]) == Some(n));
            assert(!(ls.len() - 8 < n));
        }
        while i < lines.len()
            invariant
                8 + n <= i <= lines@.len(),
                ls == views_of(lines@),
                forall|k: int| 0 <= k < lines@.len() ==> ls[k] == #[trigger] lines@[k]@,
                string_views(parts@) == pv,
                pv.len() == n,
                r0 == ls.skip(8 + n),
                ({
                    let tail = spec_parse_records(ls.skip(i as int), pv);
                    let whole = spec_parse_records(r0, pv);
                    match tail {
                        Ok(rest) => whole == Ok::<Seq<SlatV>, HefError>(
                            slat_views(slats@) + rest,
                        ),
                        Err(e) => whole == Err::<Seq<SlatV>, HefError>(e),
                    }
                }),
                ({
                    let whole = spec_parse_records(r0, pv);
                    match whole {
                        Err(e) => spec_parse(input@) == Err::<ModelV, HefError>(e),
                        Ok(ss) => spec_parse(input@) == Ok::<ModelV, HefError>(
                            ModelV {
                                name: ls[3],
                                parameters: ls[4],
                                properties: ls[6],
                                variant: variant@,
                                slats: ss,
                            },
                        ),
                    }
                }),
            decreases lines@.len() - i,
        {
            let line = &lines[i];
            proof {
                assert(ls.skip(i as int)[0] == ls[i as int]);
                assert(ls.skip(i as int).drop_first() =~= ls.skip(i + 1));
                assert(line@ == lines@[i as int]@);
                assert(line@ == ls[i as int]);
            }
            if line.len() == 0 {
                i += 1;
                continue ;
            }
            let fields = split_chars(line, ' ');
            proof {
                assert(views_of(fields@).len() == fields@.len());
            }
            if fields.len() != 8 {
                return Err(HefError::MalformedRecord);
            }
            let core = match crate::slat::parse_slat_core(&fields) {
                Err(e) => {
                    return Err(e);
                },
                Ok(c) => c,
            };
            proof {
                assert(views_of(fields@)[7] == fields@[7]@);
            }
            let idx = match parse_usize_token(&fields[7]) {
                None => {
                    return Err(HefError::InvalidNumber);
                },
                Some(x) => x,
            };
            if idx >= parts.len() {
                return Err(HefError::UnknownPartIndex);
            }
            let nm = parts[idx].clone();
            proof {
                assert(nm@ == pv[idx as int]);
            }
            let ghost prev = slat_views(slats@);
            let slat = Slat { name: nm, layer: core.2, origin: core.0, vector: core.1 };
            let ghost sv = slat@;
            slats.push(slat);
            proof {
                assert(slat_views(slats@) =~= prev.push(sv));
                assert(spec_parse_record(ls[i as int], pv) == Ok::<SlatV, HefError>(sv));
                if let Ok(rest) = spec_parse_records(ls.skip(i + 1), pv) {
                    assert(prev.push(sv) + rest =~= prev + (seq![sv] + rest));
                }
            }
            i += 1;
        }
        proof {
            assert(ls.skip(lines@.len() as int) =~= Seq::<Seq<char>>::empty());
            assert(slat_views(slats@) + Seq::<SlatV>::empty() =~= slat_views(slats@));
        }
        Ok(Model { name, parameters, properties, variant, slats })
    }

    /// Writes the whole document: magic lines, name, the two metadata
    /// documents and the scale verbatim, the deduplicated part table in
    /// first-seen order, and one record per slat in storage order.
    #[verifier::rlimit(100)]
    pub fn to_hef(&self) -> (r: String)
        ensures
            r@ == spec_to_hef(self@),
    {
        let ghost mv = self@;
        let ghost names = slat_names(mv.slats);
        let mut parts: Vec<String> = Vec::new();
        let mut k: usize = 0;
        proof {
            assert(names.take(0) =~= Seq::<Seq<char>>::empty());
            assert(string_views(parts@) =~= first_seen(names.take(0)));
        }
        while k < self.slats.len()
            invariant
                k <= self.slats@.len(),
                mv == self@,
                names == slat_names(mv.slats),
                string_views(parts@) == first_seen(names.take(k as int)),
            decreases self.slats@.len() - k,
        {
            let s = &self.slats[k];
            proof {
                assert(names.take(k + 1).drop_last() =~= names.take(k as int));
                assert(names.take(k + 1).last() == names[k as int]);
                assert(names[k as int] == s@.name);
            }
            if !contains_str(&parts, &s.name) {
                let ghost prev = string_views(parts@);
                parts.push(s.name.clone());
                proof {
                    assert(string_views(parts@) =~= prev.push(s.name@));
                }
            }
            k += 1;
        }
        proof {
            assert(names.take(mv.slats.len() as int) =~= names);
        }
        let ghost pv = first_seen(names);
        let ghost l = spec_model_lines(mv);
        proof {
            assert(l.len() == 8 + pv.len() + mv.slats.len());
        }
        let mut out = String::new();
        push_line(&mut out, "Hyperwood Exchange Format");
        push_line(&mut out, "Version 1");
        push_line(&mut out, "hyperwood.org");
        push_line(&mut out, self.name.as_str());
        push_line(&mut out, self.parameters.as_str());
        let vl = self.variant.to_json_line();
        push_line(&mut out, vl.as_str());
        push_line(&mut out, self.properties.as_str());
        let cl = format_usize(parts.len());
        push_line(&mut out, cl.as_str());
        proof {
            reveal_strlit("Hyperwood Exchange Format");
            reveal_strlit("Version 1");
            reveal_strlit("hyperwood.org");
            assert("Hyperwood Exchange Format"@ =~= magic1());
            assert("Version 1"@ =~= magic2());
            assert("hyperwood.org"@ =~= magic3());
            assert(l.take(8) =~= seq![
                magic1(),
                magic2(),
                magic3(),
                mv.name,
                mv.parameters,
                variant_line_text(mv.variant),
                mv.properties,
                dec_str(pv.len() as nat),
            ]);
            assert(out@ =~= lines_text(l.take(8))) by {
                reveal_with_fuel(lines_text, 10);
                assert(l.take(8).drop_last() =~= l.take(7));
                assert(l.take(7).drop_last() =~= l.take(6));
                assert(l.take(6).drop_last() =~= l.take(5));
                assert(l.take(5).drop_last() =~= l.take(4));
                assert(l.take(4).drop_last() =~= l.take(3));
                assert(l.take(3).drop_last() =~= l.take(2));
                assert(l.take(2).drop_last() =~= l.take(1));
                assert(l.take(1).drop_last() =~= l.take(0));
                assert(l.take(0) =~= Seq::<Seq<char>>::empty());
            }
        }
        let mut j: usize = 0;
        while j < parts.len()
            invariant
                j <= parts@.len(),
                mv == self@,
                names == slat_names(mv.slats),
                pv == first_seen(names),
                string_views(parts@) == pv,
                l == spec_model_lines(mv),
                l.len() == 8 + pv.len() + mv.slats.len(),
                out@ == lines_text(l.take(8 + j)),
            decreases parts@.len() - j,
        {
            proof {
                assert(l[8 + j] == pv[j as int]);
                assert(pv[j as int] == string_views(parts@)[j as int]);
                crate::text::lemma_lines_text_push(l.take(8 + j), l[8 + j]);
                assert(l.take(8 + j + 1) =~= l.take(8 + j).push(l[8 + j]));
            }
            push_line(&mut out, parts[j].as_str());
            j += 1;
        }
        let mut i: usize = 0;
        while i < self.slats.len()
            invariant
                i <= self.slats@.len(),
                mv == self@,
                names == slat_names(mv.slats),
                pv == first_seen(names),
                string_views(parts@) == pv,
                parts@.len() == pv.len(),
                l == spec_model_lines(mv),
                l.len() == 8 + pv.len() + mv.slats.len(),
                out@ == lines_text(l.take(8 + pv.len() + i)),
            decreases self.slats@.len() - i,
        {
            let s = &self.slats[i];
            let mut rl = s.to_hef_line();
            push_char(&mut rl, ' ');
            let idx = index_of_str(&parts, &s.name);
            let ix = format_usize(idx);
            rl.append(ix.as_str());
            proof {
                assert(s@ == mv.slats[i as int]);
                assert(idx as int == idx_of(pv, mv.slats[i as int].name));
                assert(slat_line_text(s@).push(' ') =~= slat_line_text(s@) + seq![' ']);
                assert(rl@ =~= record_text(mv.slats[i as int], pv));
                assert(l[8 + pv.len() + i] == record_text(mv.slats[i as int], pv));
                crate::text::lemma_lines_text_push(l.take(8 + pv.len() + i), l[8 + pv.len() + i]);
                assert(l.take(8 + pv.len() + i + 1) =~= l.take(8 + pv.len() + i).push(
                    l[8 + pv.len() + i],
                ));
            }
            push_line(&mut out, rl.as_str());
            i += 1;
        }
        proof {
            assert(l.take(l.len() as int) =~= l);
        }
        out
    }

    /// The bill-of-materials lines under the given length texts, one per
    /// slat, in storage order. The lengths themselves are derived by the
    /// caller, one for each slat in the same order.
    pub fn bom_lines(&self, lengths: &Vec<String>) -> (r: Vec<String>)
        requires
            lengths@.len() == self.slats@.len(),
        ensures
            r@.len() == self.slats@.len(),
            forall|i: int|
                0 <= i < r@.len() ==> r@[i]@ == bom_line_text(
                    self@.slats[i],
                    lengths@[i]@,
                ),
    {
        let mut r: Vec<String> = Vec::new();
        let mut i: usize = 0;
        while i < self.slats.len()
            invariant
                i <= self.slats@.len(),
                lengths@.len() == self.slats@.len(),
                r@.len() == i,
                forall|k: int|
                    0 <= k < i ==> r@[k]@ == bom_line_text(self@.slats[k], lengths@[k]@),
            decreases self.slats@.len() - i,
        {
            let line = self.slats[i].to_bom_line(lengths[i].as_str());
            proof {
                assert(self.slats@[i as int]@ == self@.slats[i as int]);
            }
            r.push(line);
            i += 1;
        }
        r
    }

    /// The whole bill of materials under the given length texts: the lines
    /// of `bom_lines`, each closed by a newline, slat order preserved, no
    /// header and no trailing summary.
    pub fn to_bom(&self, lengths: &Vec<String>) -> (r: String)
        requires
            lengths@.len() == self.slats@.len(),
        ensures
            r@ == lines_text(
                Seq::new(
                    self.slats@.len() as nat,
                    |i: int| bom_line_text(self@.slats[i], lengths@[i]@),
                ),
            ),
    {
        let ghost lv = Seq::new(
            self.slats@.len() as nat,
            |i: int| bom_line_text(self@.slats[i], lengths@[i]@),
        );
        let mut out = String::new();
        let mut i: usize = 0;
        proof {
            assert(lv.take(0) =~= Seq::<Seq<char>>::empty());
        }
        while i < self.slats.len()
            invariant
                i <= self.slats@.len(),
                lengths@.len() == self.slats@.len(),
                lv == Seq::new(
                    self.slats@.len() as nat,
                    |k: int| bom_line_text(self@.slats[k], lengths@[k]@),
                ),
                out@ == lines_text(lv.take(i as int)),
            decreases self.slats@.len() - i,
        {
            let line = self.slats[i].to_bom_line(lengths[i].as_str());
            proof {
                assert(self.slats@[i as int]@ == self@.slats[i as int]);
                assert(lv[i as int] == bom_line_text(self@.slats[i as int], lengths@[i as int]@));
                crate::text::lemma_lines_text_push(lv.take(i as int), lv[i as int]);
                assert(lv.take(i + 1) =~= lv.take(i as int).push(lv[i as int]));
            }
            push_line(&mut out, line.as_str());
            i += 1;
        }
        proof {
            assert(lv.take(self.slats@.len() as int) =~= lv);
        }
        out
    }
}

/// No character of the canonical scale document is a newline.
proof fn lemma_variant_line_plain(t: TripleV)
    requires
        t.wf(),
    ensures
        forall|k: int| 0 <= k < variant_line_text(t).len() ==> variant_line_text(t)[k] != '\n',
{
    lemma_numeric_chars(t.x);
    lemma_numeric_chars(t.y);
    lemma_numeric_chars(t.z);
    let u = variant_line_text(t);
    assert forall|k: int| 0 <= k < u.len() implies u[k] != '\n' by {
        let a = key_x() + t.x + seq![','] + key_y() + t.y + seq![','] + key_z() + t.z;
        if k < a.len() {
            let b = key_x() + t.x + seq![','] + key_y() + t.y + seq![','] + key_z();
            if k < b.len() {
                let c = key_x() + t.x + seq![','] + key_y() + t.y;
                if k < c.len() {
                    let d = key_x() + t.x + seq![','] + key_y();
                    if k < d.len() {
                        let e = key_x() + t.x;
                        if k >= e.len() {
                        } else if k >= key_x().len() {
                            assert(numeric_char(t.x[k - key_x().len()]));
                        }
                    } else {
                        assert(numeric_char(t.y[k - d.len()]));
                    }
                }
            } else {
                assert(numeric_char(t.z[k - b.len()]));
            }
        }
    }
}

/// No character of a record line is a newline.
proof fn lemma_record_plain(s: SlatV, parts: Seq<Seq<char>>)
    requires
        s.wf(),
    ensures
        forall|k: int| 0 <= k < record_text(s, parts).len() ==> record_text(s, parts)[k] != '\n',
{
    lemma_token_chars_plain(s);
    lemma_dec_str_chars(idx_of(parts, s.name) as nat);
    let u = record_text(s, parts);
    let ix = dec_str(idx_of(parts, s.name) as nat);
    assert forall|k: int| 0 <= k < u.len() implies u[k] != '\n' by {
        let a = slat_line_text(s) + seq![' '];
        if k >= a.len() {
            assert(numeric_char(ix[k - a.len()]));
        } else if k < slat_line_text(s).len() {
            let t1 = crate::geometry::triple_text(s.origin);
            let t2 = crate::geometry::triple_text(s.vector);
            let b = t1 + seq![' '] + t2;
            if k >= b.len() + 1 {
                assert(int_str(s.layer)[k - b.len() - 1] != '\n');
            } else if k < t1.len() {
                let c = s.origin.x + seq![' '] + s.origin.y;
                if k < c.len() {
                    if k < s.origin.x.len() {
                    } else if k > s.origin.x.len() {
                        assert(t1[k] == s.origin.y[k - s.origin.x.len() - 1]);
                    }
                } else if k > c.len() {
                    assert(t1[k] == s.origin.z[k - c.len() - 1]);
                }
            } else if k > t1.len() && k < b.len() {
                let k2 = k - t1.len() - 1;
                let c = s.vector.x + seq![' '] + s.vector.y;
                if k2 < c.len() {
                    if k2 < s.vector.x.len() {
                    } else if k2 > s.vector.x.len() {
                        assert(t2[k2] == s.vector.y[k2 - s.vector.x.len() - 1]);
                    }
                } else if k2 > c.len() {
                    assert(t2[k2] == s.vector.z[k2 - c.len() - 1]);
                }
            }
        }
    }
}

/// Reading one slat's serialized record against the table it was written
/// with recovers the slat.
proof fn lemma_record_round(s: SlatV, parts: Seq<Seq<char>>)
    requires
        s.wf(),
        parts.contains(s.name),
        parts.len() <= usize::MAX,
    ensures
        spec_parse_record(record_text(s, parts), parts) == Ok::<SlatV, HefError>(s),
{
    let idx = idx_of(parts, s.name);
    lemma_idx_of(parts, s.name);
    let ix = dec_str(idx as nat);
    lemma_dec_str(idx as nat);
    lemma_dec_str_chars(idx as nat);
    lemma_token_chars_plain(s);
    lemma_int_str(s.layer);
    let toks = slat_tokens(s).push(ix);
    lemma_join_push(slat_tokens(s), ix, ' ');
    lemma_slat_tokens_join(s);
    assert(crate::text::join_with(toks, ' ') == slat_line_text(s) + seq![' '] + ix);
    assert(forall|i: int, k: int|
        0 <= i < toks.len() && 0 <= k < toks[i].len() ==> toks[i][k] != ' ') by {
        assert(forall|i: int| 0 <= i < slat_tokens(s).len() ==> toks[i] == slat_tokens(s)[i]);
        assert(toks[7] == ix);
    }
    lemma_split_join(toks, ' ');
    let fs = split_on(record_text(s, parts), ' ');
    assert(fs == toks);
    assert(fs.len() == 8);
    assert(forall|i: int| 0 <= i < 7 ==> fs[i] == slat_tokens(s)[i]);
    assert(spec_parse_i64(fs[6]) is Some);
    assert(int_val(fs[6]) == s.layer);
    assert(spec_slat_core(fs) == Some((s.origin, s.vector, s.layer)));
    assert(spec_parse_usize(fs[7]) == Some(idx as usize));
}

/// Reading the whole record region written for a slat sequence recovers
/// the sequence.
proof fn lemma_records_round(slats: Seq<SlatV>, parts: Seq<Seq<char>>)
    requires
        forall|i: int| 0 <= i < slats.len() ==> #[trigger] slats[i].wf(),
        forall|i: int| 0 <= i < slats.len() ==> parts.contains(#[trigger] slats[i].name),
        parts.len() <= usize::MAX,
    ensures
        spec_parse_records(
            Seq::new(slats.len(), |i: int| record_text(slats[i], parts)).push(Seq::empty()),
            parts,
        ) == Ok::<Seq<SlatV>, HefError>(slats),
    decreases slats.len(),
{
    reveal_with_fuel(spec_parse_records, 3);
    let recs = Seq::new(slats.len(), |i: int| record_text(slats[i], parts)).push(Seq::empty());
    if slats.len() == 0 {
        assert(recs.len() == 1);
        assert(recs[0].len() == 0);
        assert(recs.drop_first() =~= Seq::<Seq<char>>::empty());
        assert(slats =~= Seq::<SlatV>::empty());
    } else {
        assert(recs[0] == record_text(slats[0], parts));
        assert(recs[0].len() > 0);
        lemma_record_round(slats[0], parts);
        let rest = slats.drop_first();
        let target = Seq::new(rest.len(), |i: int| record_text(rest[i], parts)).push(
            Seq::empty(),
        );
        assert(recs.drop_first() =~= target) by {
            assert(forall|i: int| 0 <= i < rest.len() ==> #[trigger] rest[i] == slats[i + 1]);
        }
        assert(forall|i: int| 0 <= i < rest.len() ==> #[trigger] rest[i] == slats[i + 1]);
        lemma_records_round(rest, parts);
        assert(seq![slats[0]] + rest =~= slats);
    }
}

/// The round trip: writing any well-formed model and reading the text back
/// recovers the model whole — same name, same metadata documents, same
/// scale, and the same slats in the same order.
#[verifier::rlimit(100)]
pub proof fn lemma_round_trip(m: ModelV)
    requires
        m.wf(),
    ensures
        spec_parse(spec_to_hef(m)) == Ok::<ModelV, HefError>(m),
{
    let names = slat_names(m.slats);
    let parts = first_seen(names);
    let l = spec_model_lines(m);
    let recs = Seq::new(m.slats.len(), |i: int| record_text(m.slats[i], parts));
    lemma_part_table(names);
    assert(forall|i: int| 0 <= i < names.len() ==> #[trigger] names[i] == m.slats[i].name);
    // every line is newline-free
    assert(forall|i: int, k: int|
        0 <= i < l.len() && 0 <= k < l[i].len() ==> l[i][k] != '\n') by {
        assert(forall|k: int| 0 <= k < magic1().len() ==> magic1()[k] != '\n');
        assert(forall|k: int| 0 <= k < magic2().len() ==> magic2()[k] != '\n');
        assert(forall|k: int| 0 <= k < magic3().len() ==> magic3()[k] != '\n');
        lemma_variant_line_plain(m.variant);
        lemma_dec_str_chars(parts.len() as nat);
        assert(forall|k: int|
            0 <= k < dec_str(parts.len() as nat).len() ==> dec_str(parts.len() as nat)[k]
                != '\n');
        assert forall|i: int, k: int|
            0 <= i < parts.len() && 0 <= k < parts[i].len() implies parts[i][k] != '\n' by {
            assert(names.contains(parts[i]));
            let w = choose|w: int| 0 <= w < names.len() && names[w] == parts[i];
            assert(m.slats[w].wf());
        }
        assert forall|i: int, k: int|
            0 <= i < recs.len() && 0 <= k < recs[i].len() implies recs[i][k] != '\n' by {
            lemma_record_plain(m.slats[i], parts);
        }
        assert forall|i: int, k: int|
            0 <= i < l.len() && 0 <= k < l[i].len() implies l[i][k] != '\n' by {
            if i >= 8 + parts.len() {
                assert(l[i] == recs[i - 8 - parts.len()]);
            } else if i >= 8 {
                assert(l[i] == parts[i - 8]);
            }
        }
    }
    lemma_split_lines(l);
    let ls = split_on(spec_to_hef(m), '\n');
    assert(ls == l.push(Seq::<char>::empty()));
    assert(l.len() == 8 + parts.len() + m.slats.len());
    assert(forall|i: int| 0 <= i < l.len() ==> #[trigger] ls[i] == l[i]);
    assert(ls[0] == magic1() && ls[1] == magic2() && ls[2] == magic3());
    assert(ls[3] == m.name && ls[4] == m.parameters && ls[6] == m.properties);
    assert(ls[5] == variant_line_text(m.variant));
    lemma_variant_round(m.variant);
    lemma_dec_str(parts.len() as nat);
    assert(parts.len() <= names.len());
    assert(ls[7] == dec_str(parts.len() as nat));
    assert(spec_parse_usize(ls[7]) == Some(parts.len() as usize));
    let n = parts.len() as usize;
    assert(!(ls.len() - 8 < n));
    assert(ls.subrange(8, 8 + n) =~= parts);
    assert(ls.skip(8 + n) =~= recs.push(Seq::<char>::empty()));
    assert forall|i: int|
        0 <= i < m.slats.len() implies parts.contains(#[trigger] m.slats[i].name) by {
        assert(names[i] == m.slats[i].name);
        assert(parts.contains(names[i]));
    }
    lemma_records_round(m.slats, parts);
    assert(Seq::new(m.slats.len(), |i: int| record_text(m.slats[i], parts)).push(Seq::empty())
        =~= recs.push(Seq::<char>::empty()));
    assert(spec_parse_records(ls.skip(8 + n), parts) == Ok::<Seq<SlatV>, HefError>(m.slats));
}

} // verus!
