//! Output formats of the field extractor: how a record of rendered values
//! is serialized to one output line, and how raw mode unquotes strings.
use vstd::prelude::*;
use vstd::string::*;

verus! {

/// The closed choice of output formats for extracted records.
#[derive(Clone, Copy, PartialEq, Eq, Structural, Debug)]
pub enum FormatType {
    Json,
    Tab,
    Space,
}

/// The views of a sequence of owned strings.
pub open spec fn views_of(fields: Seq<String>) -> Seq<Seq<char>> {
    fields.map_values(|f: String| f@)
}

/// Joins a sequence of character sequences with a single separator character.
pub open spec fn join_with(fields: Seq<Seq<char>>, sep: char) -> Seq<char>
    decreases fields.len(),
{
    if fields.len() == 0 {
        Seq::empty()
    } else if fields.len() == 1 {
        fields[0]
    } else {
        fields[0] + seq![sep] + join_with(fields.drop_first(), sep)
    }
}

/// One serialized record: the rendered values joined per the format, with
/// json-array output additionally wrapped in brackets.
pub open spec fn serialize_record(fields: Seq<Seq<char>>, fmt: FormatType) -> Seq<char> {
    match fmt {
        FormatType::Json => seq!['['] + join_with(fields, ',') + seq![']'],
        FormatType::Tab => join_with(fields, '\t'),
        FormatType::Space => join_with(fields, ' '),
    }
}

/// A rendered value with its first and last character removed: raw mode's
/// treatment of a string-typed value's quoted rendering.
pub open spec fn unquoted(s: Seq<char>) -> Seq<char> {
    s.subrange(1, s.len() - 1)
}

/// The format a selector string names, if any.
pub open spec fn format_of(s: Seq<char>) -> Option<FormatType> {
    if s == "json"@ {
        Some(FormatType::Json)
    } else if s == "tab"@ {
        Some(FormatType::Tab)
    } else if s == "space"@ {
        Some(FormatType::Space)
    } else {
        None
    }
}

proof fn lemma_join_push(fields: Seq<Seq<char>>, x: Seq<char>, sep: char)
    ensures
        join_with(fields.push(x), sep) == if fields.len() == 0 {
            x
        } else {
            join_with(fields, sep) + seq![sep] + x
        },
    decreases fields.len(),
{
    if fields.len() == 0 {
        assert(fields.push(x) =~= seq![x]);
        assert(join_with(seq![x], sep) == x);
    } else if fields.len() == 1 {
        assert(fields.push(x).drop_first() =~= seq![x]);
        assert(fields.push(x).len() == 2);
        assert(join_with(fields.push(x), sep) == fields.push(x)[0] + seq![sep] + join_with(
            fields.push(x).drop_first(),
            sep,
        ));
        assert(join_with(seq![x], sep) == x);
        assert(fields.push(x)[0] == fields[0]);
        assert(join_with(fields, sep) == fields[0]);
    } else {
        lemma_join_push(fields.drop_first(), x, sep);
        assert(fields.push(x).drop_first() =~= fields.drop_first().push(x));
        assert(join_with(fields.push(x), sep) == fields[0] + seq![sep] + join_with(
            fields.drop_first().push(x),
            sep,
        ));
        assert(fields[0] + seq![sep] + (join_with(fields.drop_first(), sep) + seq![sep] + x) =~= (
        fields[0] + seq![sep] + join_with(fields.drop_first(), sep)) + seq![sep] + x);
    }
}

/// Joins the fields with a one-character separator.
pub fn join_fields(fields: &Vec<String>, sep: &str) -> (r: String)
    requires
        sep@.len() == 1,
    ensures
        r@ == join_with(views_of(fields@), sep@[0]),
{
    let ghost views = views_of(fields@);
    let mut out = String::new();
    let mut i: usize = 0;
    while i < fields.len()
        invariant
            i <= fields@.len(),
            views == views_of(fields@),
            views.len() == fields@.len(),
            sep@.len() == 1,
            out@ == join_with(views.take(i as int), sep@[0]),
        decreases fields@.len() - i,
    {
        if i > 0 {
            out.append(sep);
        }
        out.append(fields[i].as_str());
        proof {
            assert(views.take(i + 1) =~= views.take(i as int).push(views[i as int]));
            lemma_join_push(views.take(i as int), views[i as int], sep@[0]);
            assert(sep@ =~= seq![sep@[0]]);
        }
        i = i + 1;
    }
    proof {
        assert(views.take(fields@.len() as int) =~= views);
    }
    out
}

/// Serializes one record of rendered values per the chosen format.
pub fn format_record(fields: &Vec<String>, fmt: FormatType) -> (r: String)
    ensures
        r@ == serialize_record(views_of(fields@), fmt),
{
    match fmt {
        FormatType::Tab => {
            proof {
                reveal_strlit("\t");
            }
            join_fields(fields, "\t")
        },
        FormatType::Space => {
            proof {
                reveal_strlit(" ");
            }
            join_fields(fields, " ")
        },
        FormatType::Json => {
            proof {
                reveal_strlit(",");
                reveal_strlit("[");
                reveal_strlit("]");
            }
            let mut out = String::from_str("[");
            let body = join_fields(fields, ",");
            out.append(body.as_str());
            out.append("]");
            proof {
                assert("["@ =~= seq!['[']);
                assert("]"@ =~= seq![']']);
                assert(out@ =~= seq!['['] + join_with(views_of(fields@), ',') + seq![']']);
            }
            out
        },
    }
}

/// Removes the enclosing quote characters from a string-typed rendering;
/// any other rendering passes through unchanged.
pub fn unquote_str(is_string: bool, s: &str) -> (r: String)
    requires
        is_string ==> s@.len() >= 2,
    ensures
        r@ == if is_string {
            unquoted(s@)
        } else {
            s@
        },
{
    if is_string {
        let n = s.unicode_len();
        let t = s.substring_char(1, n - 1);
        String::from_str(t)
    } else {
        String::from_str(s)
    }
}

impl FormatType {
    /// Parses a format selector; any string but the three known names is a
    /// configuration error.
    pub fn from(s: &String) -> (r: Result<FormatType, &'static str>)
        ensures
            match format_of(s@) {
                Some(fmt) => r == Ok::<FormatType, &'static str>(fmt),
                None => r is Err,
            },
    {
        let json = String::from_str("json");
        let tab = String::from_str("tab");
        let space = String::from_str("space");
        if s.eq(&json) {
            Ok(FormatType::Json)
        } else if s.eq(&tab) {
            Ok(FormatType::Tab)
        } else if s.eq(&space) {
            Ok(FormatType::Space)
        } else {
            Err("unknown format type")
        }
    }
}

} // verus!
