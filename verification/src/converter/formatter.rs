//! The positional formatter: renders one locale's parsed elements to
//! catalog syntax, assigning stable 1-based argument positions in
//! first-occurrence order within a single pass.

use vstd::prelude::*;

use crate::ast::{spec_add_var, Element};
use crate::errors::{ConvertError, ErrM};
use crate::text::{spec_decimal, str_eq};

verus! {

/// Which rendering a pass produces: `StringUnit` for a full catalog value,
/// `Plural` for the body of one plural/select case, where arguments render
/// as the fixed token `%arg`.
pub enum FormatterMode {
    StringUnit,
    Plural,
}

/// The index of the first entry of `tbl` equal to `name`, or `-1`.
pub open spec fn spec_first_index(tbl: Seq<Seq<char>>, name: Seq<char>) -> int
    decreases tbl.len(),
{
    if tbl.len() == 0 {
        -1
    } else if tbl[0] == name {
        0
    } else {
        let r = spec_first_index(tbl.drop_first(), name);
        if r < 0 {
            -1
        } else {
            r + 1
        }
    }
}

pub broadcast proof fn lemma_first_index(tbl: Seq<Seq<char>>, name: Seq<char>)
    ensures
        -1 <= #[trigger] spec_first_index(tbl, name) < tbl.len(),
        spec_first_index(tbl, name) >= 0 ==> tbl[spec_first_index(tbl, name)] == name,
        spec_first_index(tbl, name) >= 0 ==> forall|j: int|
            0 <= j < spec_first_index(tbl, name) ==> tbl[j] != name,
        (spec_first_index(tbl, name) >= 0) == tbl.contains(name),
    decreases tbl.len(),
{
    if tbl.len() > 0 && tbl[0] != name {
        lemma_first_index(tbl.drop_first(), name);
        assert(forall|j: int| 1 <= j < tbl.len() ==> tbl[j] == tbl.drop_first()[j - 1]);
        if tbl.drop_first().contains(name) {
            let k = choose|k: int|
                0 <= k < tbl.drop_first().len() && tbl.drop_first()[k] == name;
            assert(tbl[k + 1] == name);
        } else if tbl.contains(name) {
            let k = choose|k: int| 0 <= k < tbl.len() && tbl[k] == name;
            assert(tbl.drop_first()[k - 1] == name);
        }
    }
}

/// The 1-based position `name` renders with against table `tbl`: its
/// first-assigned position when already present, the next free position
/// otherwise.
pub open spec fn spec_position(tbl: Seq<Seq<char>>, name: Seq<char>) -> int {
    if spec_first_index(tbl, name) >= 0 {
        spec_first_index(tbl, name) + 1
    } else {
        tbl.len() as int + 1
    }
}

/// Whether assigning a position to `name` fails: the name is new and the
/// running counter cannot be incremented further.
pub open spec fn spec_assign_fails(tbl: Seq<Seq<char>>, name: Seq<char>) -> bool {
    !tbl.contains(name) && tbl.len() >= usize::MAX
}

/// `"%<pos>$@"`: a positional object reference.
pub open spec fn spec_obj_ref(pos: nat) -> Seq<char> {
    seq!['%'] + spec_decimal(pos) + seq!['$', '@']
}

/// `"%<pos>$lld"`: a positional 64-bit integer reference.
pub open spec fn spec_int_ref(pos: nat) -> Seq<char> {
    seq!['%'] + spec_decimal(pos) + seq!['$', 'l', 'l', 'd']
}

/// `"%#@<name>@"`: a named substitution reference.
pub open spec fn spec_sub_ref(name: Seq<char>) -> Seq<char> {
    seq!['%', '#', '@'] + name + seq!['@']
}

/// `"%arg"`: the fixed token an argument renders as inside a case body.
pub open spec fn spec_arg_token() -> Seq<char> {
    seq!['%', 'a', 'r', 'g']
}

/// What one element renders to against table `tbl` in mode `mode`.
pub open spec fn spec_elem_render(tbl: Seq<Seq<char>>, e: Element, mode: FormatterMode) -> Seq<
    char,
> {
    match e {
        Element::Literal { text } => text@,
        Element::Argument { name } => {
            if mode is StringUnit {
                spec_obj_ref(spec_position(tbl, name@) as nat)
            } else {
                spec_arg_token()
            }
        },
        Element::Number { name } => spec_int_ref(spec_position(tbl, name@) as nat),
        Element::Date { name } => spec_obj_ref(spec_position(tbl, name@) as nat),
        Element::Plural { name, .. } => spec_sub_ref(name@),
        Element::Select { name, .. } => spec_sub_ref(name@),
        Element::Pound => seq!['#'],
        Element::Other => Seq::empty(),
    }
}

/// The position table after one element: argument-like references insert
/// their name if unseen, everything else leaves the table alone.
pub open spec fn spec_elem_tbl(tbl: Seq<Seq<char>>, e: Element) -> Seq<Seq<char>> {
    match e {
        Element::Argument { name } => spec_add_var(tbl, name@),
        Element::Number { name } => spec_add_var(tbl, name@),
        Element::Date { name } => spec_add_var(tbl, name@),
        _ => tbl,
    }
}

/// Whether rendering one element fails with a position overflow.
pub open spec fn spec_elem_fails(tbl: Seq<Seq<char>>, e: Element) -> bool {
    match e {
        Element::Argument { name } => spec_assign_fails(tbl, name@),
        Element::Number { name } => spec_assign_fails(tbl, name@),
        Element::Date { name } => spec_assign_fails(tbl, name@),
        _ => false,
    }
}

/// The variable a failing element names in its error.
pub open spec fn spec_elem_var(e: Element) -> Seq<char> {
    match e {
        Element::Argument { name } => name@,
        Element::Number { name } => name@,
        Element::Date { name } => name@,
        _ => Seq::empty(),
    }
}

/// One whole pass: the concatenated rendering and the final table, or the
/// variable whose position assignment overflowed.
pub open spec fn spec_format_seq(
    tbl: Seq<Seq<char>>,
    es: Seq<Element>,
    mode: FormatterMode,
) -> Result<(Seq<char>, Seq<Seq<char>>), Seq<char>>
    decreases es.len(),
{
    if es.len() == 0 {
        Ok((Seq::empty(), tbl))
    } else if spec_elem_fails(tbl, es[0]) {
        Err(spec_elem_var(es[0]))
    } else {
        match spec_format_seq(spec_elem_tbl(tbl, es[0]), es.drop_first(), mode) {
            Ok((out, t)) => Ok((spec_elem_render(tbl, es[0], mode) + out, t)),
            Err(v) => Err(v),
        }
    }
}

/// The names of the argument-like references (argument, number, date) of
/// `es`, in order, repeats kept.
pub open spec fn spec_positional_names(es: Seq<Element>) -> Seq<Seq<char>>
    decreases es.len(),
{
    if es.len() == 0 {
        Seq::empty()
    } else {
        match es[0] {
            Element::Argument { name } => seq![name@] + spec_positional_names(es.drop_first()),
            Element::Number { name } => seq![name@] + spec_positional_names(es.drop_first()),
            Element::Date { name } => seq![name@] + spec_positional_names(es.drop_first()),
            _ => spec_positional_names(es.drop_first()),
        }
    }
}

/// `acc` extended with each name of `names` in turn, unseen names appended:
/// the distinct names in first-occurrence order.
pub open spec fn spec_dedup(acc: Seq<Seq<char>>, names: Seq<Seq<char>>) -> Seq<Seq<char>>
    decreases names.len(),
{
    if names.len() == 0 {
        acc
    } else {
        spec_dedup(spec_add_var(acc, names[0]), names.drop_first())
    }
}

/// Law: how one position assignment behaves. A name not seen before in the
/// pass gets the next free position, the table length plus one, and is
/// appended; a name already seen keeps its first-assigned position, one
/// plus the index of its first occurrence, and leaves the table unchanged.
pub proof fn lemma_position_rules(tbl: Seq<Seq<char>>, name: Seq<char>)
    ensures
        !tbl.contains(name) ==> spec_position(tbl, name) == tbl.len() + 1,
        !tbl.contains(name) ==> spec_add_var(tbl, name) == tbl.push(name),
        tbl.contains(name) ==> spec_add_var(tbl, name) == tbl,
        tbl.contains(name) ==> {
            let i = spec_position(tbl, name) - 1;
            &&& 0 <= i < tbl.len()
            &&& tbl[i] == name
            &&& forall|j: int| 0 <= j < i ==> tbl[j] != name
        },
{
    lemma_first_index(tbl, name);
}

/// Law: over one whole pass, the final position table lists exactly the
/// distinct argument-like names of the sequence, in strict first-occurrence
/// order, appended after whatever the table already held.
pub proof fn lemma_pass_assigns_first_occurrence(
    tbl: Seq<Seq<char>>,
    es: Seq<Element>,
    mode: FormatterMode,
)
    ensures
        spec_format_seq(tbl, es, mode) matches Ok((o, t)) ==> t == spec_dedup(
            tbl,
            spec_positional_names(es),
        ),
    decreases es.len(),
{
    if es.len() > 0 && !spec_elem_fails(tbl, es[0]) {
        lemma_pass_assigns_first_occurrence(spec_elem_tbl(tbl, es[0]), es.drop_first(), mode);
        match es[0] {
            Element::Argument { name } => {
                assert((seq![name@] + spec_positional_names(es.drop_first())).drop_first()
                    =~= spec_positional_names(es.drop_first()));
            },
            Element::Number { name } => {
                assert((seq![name@] + spec_positional_names(es.drop_first())).drop_first()
                    =~= spec_positional_names(es.drop_first()));
            },
            Element::Date { name } => {
                assert((seq![name@] + spec_positional_names(es.drop_first())).drop_first()
                    =~= spec_positional_names(es.drop_first()));
            },
            _ => {},
        }
    }
}

/// A table with no repeated names assigns positions `1 ..= n` in order:
/// the name at index `j` renders with position `j + 1`.
pub proof fn lemma_table_positions_in_order(t: Seq<Seq<char>>)
    requires
        t.no_duplicates(),
    ensures
        forall|j: int| 0 <= j < t.len() ==> #[trigger] spec_position(t, t[j]) == j + 1,
{
    assert forall|j: int| 0 <= j < t.len() implies #[trigger] spec_position(t, t[j]) == j
        + 1 by {
        assert(t.contains(t[j]));
        lemma_first_index(t, t[j]);
        let f = spec_first_index(t, t[j]);
        assert(!(f < j) && !(f > j));
    }
}

/// Deduplication keeps a duplicate-free table duplicate-free.
pub proof fn lemma_dedup_no_duplicates(acc: Seq<Seq<char>>, names: Seq<Seq<char>>)
    requires
        acc.no_duplicates(),
    ensures
        spec_dedup(acc, names).no_duplicates(),
    decreases names.len(),
{
    if names.len() > 0 {
        if !acc.contains(names[0]) {
            assert forall|i: int, j: int|
                0 <= i < j < acc.push(names[0]).len() implies acc.push(names[0])[i] != acc.push(
                names[0],
            )[j] by {
                if j == acc.len() {
                    assert(acc.contains(acc[i]));
                }
            }
        }
        lemma_dedup_no_duplicates(spec_add_var(acc, names[0]), names.drop_first());
    }
}

/// Law: over one pass from a fresh table, positions are assigned `1 ..= n`
/// in strict first-occurrence order. The final table lists the distinct
/// argument-like names of the sequence in first-occurrence order, without
/// repeats, and the name first seen `k`-th holds position `k`; a name
/// repeated within the pass kept its first-assigned position throughout.
pub proof fn lemma_first_occurrence_assignment(es: Seq<Element>, mode: FormatterMode)
    ensures
        spec_format_seq(Seq::empty(), es, mode) matches Ok((o, t)) ==> {
            &&& t == spec_dedup(Seq::empty(), spec_positional_names(es))
            &&& t.no_duplicates()
            &&& forall|j: int| 0 <= j < t.len() ==> #[trigger] spec_position(t, t[j]) == j + 1
        },
{
    lemma_pass_assigns_first_occurrence(Seq::empty(), es, mode);
    match spec_format_seq(Seq::empty(), es, mode) {
        Ok((o, t)) => {
            lemma_dedup_no_duplicates(Seq::empty(), spec_positional_names(es));
            lemma_table_positions_in_order(t);
        },
        Err(_) => {},
    }
}

/// Law: a literal-only sequence formats to the concatenation of its texts —
/// a literal-only message formats to itself unchanged — in either mode,
/// with the position table left untouched.
pub proof fn lemma_literal_identity(tbl: Seq<Seq<char>>, es: Seq<Element>, mode: FormatterMode)
    requires
        forall|i: int| 0 <= i < es.len() ==> es[i] is Literal,
    ensures
        spec_format_seq(tbl, es, mode) == Ok::<_, Seq<char>>((spec_literal_concat(es), tbl)),
    decreases es.len(),
{
    if es.len() > 0 {
        assert(es[0] is Literal);
        assert(forall|i: int| 0 <= i < es.drop_first().len() ==> es.drop_first()[i] is Literal);
        lemma_literal_identity(tbl, es.drop_first(), mode);
    }
}

/// The concatenated texts of the literal elements of `es`.
pub open spec fn spec_literal_concat(es: Seq<Element>) -> Seq<char>
    decreases es.len(),
{
    if es.len() == 0 {
        Seq::empty()
    } else {
        match es[0] {
            Element::Literal { text } => text@ + spec_literal_concat(es.drop_first()),
            _ => spec_literal_concat(es.drop_first()),
        }
    }
}

/// `r` with `prefix` prepended to its rendering on success.
pub open spec fn spec_combine(
    prefix: Seq<char>,
    r: Result<(Seq<char>, Seq<Seq<char>>), Seq<char>>,
) -> Result<(Seq<char>, Seq<Seq<char>>), Seq<char>> {
    match r {
        Ok((o, t)) => Ok((prefix + o, t)),
        Err(v) => Err(v),
    }
}

proof fn lemma_combine_nil(r: Result<(Seq<char>, Seq<Seq<char>>), Seq<char>>)
    ensures
        spec_combine(Seq::empty(), r) == r,
{
    match r {
        Ok((o, t)) => {
            assert(Seq::empty() + o =~= o);
        },
        Err(_) => {},
    }
}

proof fn lemma_combine_assoc(
    a: Seq<char>,
    b: Seq<char>,
    r: Result<(Seq<char>, Seq<Seq<char>>), Seq<char>>,
)
    ensures
        spec_combine(a, spec_combine(b, r)) == spec_combine(a + b, r),
{
    match r {
        Ok((o, t)) => {
            assert(a + (b + o) =~= (a + b) + o);
        },
        Err(_) => {},
    }
}

/// Walks one locale's parsed elements, assigning argument positions in
/// first-occurrence order and rendering each element to catalog syntax.
pub struct XCStringFormatter {
    formatter_mode: FormatterMode,
    argument_positions: Vec<String>,
}

impl XCStringFormatter {
    /// The names assigned so far, in assignment order: the name at index
    /// `i` holds position `i + 1`.
    pub closed spec fn tbl(&self) -> Seq<Seq<char>> {
        self.argument_positions@.map_values(|s: String| s@)
    }

    pub closed spec fn mode(&self) -> FormatterMode {
        self.formatter_mode
    }

    pub fn new(mode: FormatterMode) -> (r: Self)
        ensures
            r.mode() == mode,
            r.tbl() =~= Seq::<Seq<char>>::empty(),
    {
        XCStringFormatter { formatter_mode: mode, argument_positions: Vec::new() }
    }

    /// The position of `value`, assigning the next free one to a name not
    /// seen before in this pass.
    fn get_or_insert_position(&mut self, value: &str) -> (r: Result<usize, ConvertError>)
        ensures
            final(self).mode() == old(self).mode(),
            match r {
                Ok(p) => {
                    &&& !spec_assign_fails(old(self).tbl(), value@)
                    &&& p == spec_position(old(self).tbl(), value@)
                    &&& final(self).tbl() == spec_add_var(old(self).tbl(), value@)
                },
                Err(e) => {
                    &&& spec_assign_fails(old(self).tbl(), value@)
                    &&& e.model() == (ErrM::PositionOverflow { variable: value@ })
                    &&& final(self).tbl() == old(self).tbl()
                },
            },
    {
        proof {
            lemma_first_index(self.tbl(), value@);
        }
        let n = self.argument_positions.len();
        let mut i: usize = 0;
        while i < n
            invariant
                n == self.tbl().len(),
                i <= n,
                forall|j: int| 0 <= j < i ==> self.tbl()[j] != value@,
            decreases n - i,
        {
            if str_eq(self.argument_positions[i].as_str(), value) {
                proof {
                    lemma_first_index(self.tbl(), value@);
                    assert(self.tbl()[i as int] == value@);
                    let x = spec_first_index(self.tbl(), value@);
                    assert(x >= 0);
                    assert(!(x < i) && !(x > i));
                    assert(spec_add_var(self.tbl(), value@) == self.tbl());
                }
                return Ok(i + 1);
            }
            i += 1;
        }
        if n == usize::MAX {
            proof {
                lemma_first_index(self.tbl(), value@);
            }
            return Err(
                ConvertError::PositionOverflow { variable: String::from_str(value) },
            );
        }
        self.argument_positions.push(String::from_str(value));
        proof {
            lemma_first_index(old(self).tbl(), value@);
            assert(self.tbl() =~= old(self).tbl().push(value@));
        }
        Ok(n + 1)
    }

    /// Renders one element, updating the position table as the element
    /// demands; the exact text is pinned by `spec_elem_render`.
    pub fn format(&mut self, element: &Element) -> (r: Result<String, ConvertError>)
        ensures
            final(self).mode() == old(self).mode(),
            match r {
                Ok(s) => {
                    &&& !spec_elem_fails(old(self).tbl(), *element)
                    &&& s@ == spec_elem_render(old(self).tbl(), *element, old(self).mode())
                    &&& final(self).tbl() == spec_elem_tbl(old(self).tbl(), *element)
                },
                Err(e) => {
                    &&& spec_elem_fails(old(self).tbl(), *element)
                    &&& e.model() == (ErrM::PositionOverflow { variable: spec_elem_var(*element) })
                    &&& final(self).tbl() == old(self).tbl()
                },
            },
    {
        match element {
            Element::Literal { text } => Ok(text.clone()),
            Element::Argument { name } => {
                let position = self.get_or_insert_position(name.as_str())?;
                match &self.formatter_mode {
                    FormatterMode::StringUnit => Ok(obj_ref(position)),
                    FormatterMode::Plural => {
                        proof {
                            reveal_strlit("%arg");
                            assert("%arg"@ =~= spec_arg_token());
                        }
                        Ok(String::from_str("%arg"))
                    },
                }
            },
            Element::Number { name } => {
                let position = self.get_or_insert_position(name.as_str())?;
                Ok(int_ref(position))
            },
            Element::Date { name } => {
                let position = self.get_or_insert_position(name.as_str())?;
                Ok(obj_ref(position))
            },
            Element::Plural { name, .. } => Ok(sub_ref(name.as_str())),
            Element::Select { name, .. } => Ok(sub_ref(name.as_str())),
            Element::Pound => {
                proof {
                    reveal_strlit("#");
                    assert("#"@ =~= seq!['#']);
                }
                Ok(String::from_str("#"))
            },
            Element::Other => {
                proof {
                    reveal_strlit("");
                    assert(""@ =~= Seq::<char>::empty());
                }
                Ok(String::from_str(""))
            },
        }
    }

    /// Renders a whole element sequence in one pass; the concatenation and
    /// the final table are pinned by `spec_format_seq`.
    pub fn format_batch(&mut self, elements: &Vec<Element>) -> (r: Result<String, ConvertError>)
        ensures
            final(self).mode() == old(self).mode(),
            match r {
                Ok(s) => spec_format_seq(old(self).tbl(), elements@, old(self).mode()) == Ok::<
                    _,
                    Seq<char>,
                >((s@, final(self).tbl())),
                Err(e) => {
                    &&& spec_format_seq(old(self).tbl(), elements@, old(self).mode()) matches Err(v)
                        && e.model() == (ErrM::PositionOverflow { variable: v })
                },
            },
    {
        let mut result = String::new();
        let ghost tbl0 = self.tbl();
        let ghost mode0 = self.mode();
        proof {
            assert(elements@.skip(0) =~= elements@);
            lemma_combine_nil(spec_format_seq(tbl0, elements@, mode0));
        }
        let n = elements.len();
        let mut i: usize = 0;
        while i < n
            invariant
                n == elements@.len(),
                i <= n,
                tbl0 == old(self).tbl(),
                mode0 == old(self).mode(),
                self.mode() == mode0,
                spec_format_seq(tbl0, elements@, mode0) == spec_combine(
                    result@,
                    spec_format_seq(self.tbl(), elements@.skip(i as int), mode0),
                ),
            decreases n - i,
        {
            let ghost pre = self.tbl();
            let ghost rest = elements@.skip(i as int);
            let ghost acc = result@;
            proof {
                assert(rest.len() > 0);
                assert(rest[0] == elements@[i as int]);
                assert(rest.drop_first() =~= elements@.skip(i + 1));
            }
            let piece = self.format(&elements[i])?;
            result.append(piece.as_str());
            proof {
                assert(spec_format_seq(pre, rest, mode0) == spec_combine(
                    piece@,
                    spec_format_seq(self.tbl(), elements@.skip(i + 1), mode0),
                ));
                lemma_combine_assoc(
                    acc,
                    piece@,
                    spec_format_seq(self.tbl(), elements@.skip(i + 1), mode0),
                );
            }
            i += 1;
        }
        proof {
            assert(elements@.skip(n as int) =~= Seq::<Element>::empty());
            assert(result@ + Seq::<char>::empty() =~= result@);
        }
        Ok(result)
    }

    /// Renders one element into a string allocated ahead of time; the
    /// rendering itself is exactly `format`'s.
    pub fn format_with_capacity(&mut self, element: &Element, capacity: usize) -> (r: Result<
        String,
        ConvertError,
    >)
        ensures
            final(self).mode() == old(self).mode(),
            match r {
                Ok(s) => {
                    &&& !spec_elem_fails(old(self).tbl(), *element)
                    &&& s@ == spec_elem_render(old(self).tbl(), *element, old(self).mode())
                    &&& final(self).tbl() == spec_elem_tbl(old(self).tbl(), *element)
                },
                Err(e) => {
                    &&& spec_elem_fails(old(self).tbl(), *element)
                    &&& e.model() == (ErrM::PositionOverflow { variable: spec_elem_var(*element) })
                    &&& final(self).tbl() == old(self).tbl()
                },
            },
    {
        let mut result = with_capacity(capacity);
        let piece = self.format(element)?;
        result.append(piece.as_str());
        proof {
            assert(result@ =~= piece@);
        }
        Ok(result)
    }

    /// Renders a whole element sequence in one pass, sizing the output
    /// ahead of time; the result is exactly `format_batch`'s.
    pub fn format_batch_optimized(&mut self, elements: &Vec<Element>) -> (r: Result<
        String,
        ConvertError,
    >)
        ensures
            final(self).mode() == old(self).mode(),
            match r {
                Ok(s) => spec_format_seq(old(self).tbl(), elements@, old(self).mode()) == Ok::<
                    _,
                    Seq<char>,
                >((s@, final(self).tbl())),
                Err(e) => {
                    &&& spec_format_seq(old(self).tbl(), elements@, old(self).mode()) matches Err(v)
                        && e.model() == (ErrM::PositionOverflow { variable: v })
                },
            },
    {
        let mut estimated: usize = 0;
        let n = elements.len();
        let mut i: usize = 0;
        while i < n
            invariant
                n == elements@.len(),
                i <= n,
            decreases n - i,
        {
            let add: usize = match &elements[i] {
                Element::Literal { text } => text.as_str().unicode_len(),
                Element::Argument { .. } => 4,
                Element::Number { .. } => 6,
                Element::Date { .. } => 4,
                Element::Plural { name, .. } => {
                    let l = name.as_str().unicode_len();
                    if l <= usize::MAX - 3 {
                        l + 3
                    } else {
                        usize::MAX
                    }
                },
                Element::Select { name, .. } => {
                    let l = name.as_str().unicode_len();
                    if l <= usize::MAX - 3 {
                        l + 3
                    } else {
                        usize::MAX
                    }
                },
                Element::Pound => 1,
                Element::Other => 0,
            };
            estimated = if estimated <= usize::MAX - add {
                estimated + add
            } else {
                usize::MAX
            };
            i += 1;
        }
        let mut result = with_capacity(estimated);
        let ghost tbl0 = self.tbl();
        let ghost mode0 = self.mode();
        proof {
            assert(elements@.skip(0) =~= elements@);
            lemma_combine_nil(spec_format_seq(tbl0, elements@, mode0));
        }
        let mut j: usize = 0;
        while j < n
            invariant
                n == elements@.len(),
                j <= n,
                tbl0 == old(self).tbl(),
                mode0 == old(self).mode(),
                self.mode() == mode0,
                spec_format_seq(tbl0, elements@, mode0) == spec_combine(
                    result@,
                    spec_format_seq(self.tbl(), elements@.skip(j as int), mode0),
                ),
            decreases n - j,
        {
            let ghost pre = self.tbl();
            let ghost rest = elements@.skip(j as int);
            let ghost acc = result@;
            proof {
                assert(rest.len() > 0);
                assert(rest[0] == elements@[j as int]);
                assert(rest.drop_first() =~= elements@.skip(j + 1));
            }
            let piece = self.format(&elements[j])?;
            result.append(piece.as_str());
            proof {
                assert(spec_format_seq(pre, rest, mode0) == spec_combine(
                    piece@,
                    spec_format_seq(self.tbl(), elements@.skip(j + 1), mode0),
                ));
                lemma_combine_assoc(
                    acc,
                    piece@,
                    spec_format_seq(self.tbl(), elements@.skip(j + 1), mode0),
                );
            }
            j += 1;
        }
        proof {
            assert(elements@.skip(n as int) =~= Seq::<Element>::empty());
            assert(result@ + Seq::<char>::empty() =~= result@);
        }
        Ok(result)
    }
}

/// A fresh string with room for `capacity` bytes; its contents are empty.
#[verifier::external_body]
fn with_capacity(capacity: usize) -> (r: String)
    ensures
        r@ =~= Seq::<char>::empty(),
{
    String::with_capacity(capacity)
}

fn obj_ref(pos: usize) -> (r: String)
    ensures
        r@ == spec_obj_ref(pos as nat),
{
    proof {
        reveal_strlit("%");
        reveal_strlit("$@");
    }
    let mut r = String::from_str("%");
    r.append(crate::text::decimal_string(pos).as_str());
    r.append("$@");
    proof {
        assert(r@ =~= spec_obj_ref(pos as nat));
    }
    r
}

fn int_ref(pos: usize) -> (r: String)
    ensures
        r@ == spec_int_ref(pos as nat),
{
    proof {
        reveal_strlit("%");
        reveal_strlit("$lld");
    }
    let mut r = String::from_str("%");
    r.append(crate::text::decimal_string(pos).as_str());
    r.append("$lld");
    proof {
        assert(r@ =~= spec_int_ref(pos as nat));
    }
    r
}

fn sub_ref(name: &str) -> (r: String)
    ensures
        r@ == spec_sub_ref(name@),
{
    proof {
        reveal_strlit("%#@");
        reveal_strlit("@");
    }
    let mut r = String::from_str("%#@");
    r.append(name);
    r.append("@");
    proof {
        assert(r@ =~= spec_sub_ref(name@));
    }
    r
}

} // verus!
