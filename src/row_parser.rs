use vstd::prelude::*;

verus! {

/// The text of one field, escaped: backslash, tab, line feed and carriage
/// return are written as a backslash and a letter (or the backslash itself).
pub open spec fn escape_char(c: char) -> Seq<char> {
    if c == '\\' {
        seq!['\\', '\\']
    } else if c == '\t' {
        seq!['\\', 't']
    } else if c == '\n' {
        seq!['\\', 'n']
    } else if c == '\r' {
        seq!['\\', 'r']
    } else {
        seq![c]
    }
}

pub open spec fn escape(v: Seq<char>) -> Seq<char>
    decreases v.len(),
{
    if v.len() == 0 {
        seq![]
    } else {
        escape_char(v[0]) + escape(v.drop_first())
    }
}

/// The character that a backslash followed by `c` stands for, if any.
pub open spec fn unescaped(c: char) -> Option<char> {
    if c == '\\' {
        Some('\\')
    } else if c == 't' {
        Some('\t')
    } else if c == 'n' {
        Some('\n')
    } else if c == 'r' {
        Some('\r')
    } else {
        None
    }
}

/// A character that may not stand unescaped inside a field.
pub open spec fn is_special(c: char) -> bool {
    c == '\\' || c == '\t' || c == '\n' || c == '\r'
}

/// The text that an escaped field stands for; `None` where it holds a special
/// character unescaped or a backslash that starts no known escape.
pub open spec fn unescape(raw: Seq<char>) -> Option<Seq<char>>
    decreases raw.len(),
{
    if raw.len() == 0 {
        Some(seq![])
    } else if raw[0] == '\\' {
        if raw.len() >= 2 && unescaped(raw[1]) is Some {
            match unescape(raw.skip(2)) {
                Some(rest) => Some(seq![unescaped(raw[1])->Some_0] + rest),
                None => None,
            }
        } else {
            None
        }
    } else if is_special(raw[0]) {
        None
    } else {
        match unescape(raw.drop_first()) {
            Some(rest) => Some(seq![raw[0]] + rest),
            None => None,
        }
    }
}

/// The marker that stands for a null field.
pub open spec fn null_marker() -> Seq<char> {
    seq!['\\', 'N']
}

/// The raw text of a field: the null marker, or the escaped value.
pub open spec fn encode(field: Option<Seq<char>>) -> Seq<char> {
    match field {
        None => null_marker(),
        Some(v) => escape(v),
    }
}

/// The field that raw text stands for, if it is well formed.
pub open spec fn decode(raw: Seq<char>) -> Option<Option<Seq<char>>> {
    if raw == null_marker() {
        Some(None)
    } else {
        match unescape(raw) {
            Some(v) => Some(Some(v)),
            None => None,
        }
    }
}

/// A field whose raw text holds a special character unescaped, or an unknown
/// escape.
#[derive(Clone, Debug, PartialEq, Eq)]
pub struct MalformedField {
    pub position: usize,
}

proof fn lemma_unescape_escape(v: Seq<char>)
    ensures
        unescape(escape(v)) == Some(v),
    decreases v.len(),
{
    if v.len() > 0 {
        lemma_unescape_escape(v.drop_first());
        let e = escape(v);
        let c = v[0];
        let rest = escape(v.drop_first());
        assert(e == escape_char(c) + rest);
        if is_special(c) {
            assert(e.skip(2) =~= rest);
        } else {
            assert(e.drop_first() =~= rest);
        }
        assert(seq![c] + v.drop_first() =~= v);
    }
}

proof fn lemma_escape_not_null(v: Seq<char>)
    ensures
        escape(v) != null_marker(),
{
    if v.len() > 0 {
        let e = escape(v);
        assert(e == escape_char(v[0]) + escape(v.drop_first()));
        if is_special(v[0]) {
            assert(e[1] != 'N');
        } else {
            assert(e[0] != '\\');
        }
    } else {
        assert(escape(v).len() == 0);
    }
}

/// Decoding the encoding of a field gives the field back.
pub proof fn lemma_decode_encode(field: Option<Seq<char>>)
    ensures
        decode(encode(field)) == Some(field),
{
    if let Some(v) = field {
        lemma_escape_not_null(v);
        lemma_unescape_escape(v);
    }
}

proof fn lemma_escape_unescape(raw: Seq<char>)
    requires
        unescape(raw) is Some,
    ensures
        escape(unescape(raw)->Some_0) == raw,
    decreases raw.len(),
{
    if raw.len() > 0 {
        let v = unescape(raw)->Some_0;
        if raw[0] == '\\' {
            lemma_escape_unescape(raw.skip(2));
            assert(v.drop_first() =~= unescape(raw.skip(2))->Some_0);
            assert(escape_char(v[0]) =~= raw.take(2));
            assert(raw =~= raw.take(2) + raw.skip(2));
        } else {
            lemma_escape_unescape(raw.drop_first());
            assert(v.drop_first() =~= unescape(raw.drop_first())->Some_0);
            assert(raw =~= seq![raw[0]] + raw.drop_first());
        }
    }
}

/// Raw text that decodes is given back exactly by encoding what it decodes to.
pub proof fn lemma_encode_decode(raw: Seq<char>)
    requires
        decode(raw) is Some,
    ensures
        encode(decode(raw)->Some_0) == raw,
{
    if raw != null_marker() {
        lemma_escape_unescape(raw);
    }
}

proof fn lemma_escape_push(v: Seq<char>, c: char)
    ensures
        escape(v.push(c)) == escape(v) + escape_char(c),
    decreases v.len(),
{
    if v.len() == 0 {
        assert(v.push(c).drop_first() =~= v);
        assert(v.push(c)[0] == c);
        assert(escape(v) == Seq::<char>::empty());
        assert(escape(v.push(c)) =~= escape(v) + escape_char(c));
    } else {
        lemma_escape_push(v.drop_first(), c);
        assert(v.push(c).drop_first() =~= v.drop_first().push(c));
        assert(escape(v.push(c)) =~= escape(v) + escape_char(c));
    }
}

/// Writes a field in its raw form.
pub fn encode_field(field: &Option<Vec<char>>) -> (r: Vec<char>)
    ensures
        r@ == encode(
            match field {
                Some(v) => Some(v@),
                None => None,
            },
        ),
{
    match field {
        None => vec!['\\', 'N'],
        Some(v) => {
            let mut out: Vec<char> = Vec::new();
            let mut i: usize = 0;
            while i < v.len()
                invariant
                    i <= v@.len(),
                    out@ == escape(v@.take(i as int)),
                decreases v@.len() - i,
            {
                let c = v[i];
                proof {
                    lemma_escape_push(v@.take(i as int), c);
                    assert(v@.take(i + 1) =~= v@.take(i as int).push(c));
                }
                if c == '\\' {
                    out.push('\\');
                    out.push('\\');
                } else if c == '\t' {
                    out.push('\\');
                    out.push('t');
                } else if c == '\n' {
                    out.push('\\');
                    out.push('n');
                } else if c == '\r' {
                    out.push('\\');
                    out.push('r');
                } else {
                    out.push(c);
                }
                proof {
                    assert(out@ =~= escape(v@.take(i + 1)));
                }
                i = i + 1;
            }
            proof {
                assert(v@.take(v@.len() as int) =~= v@);
            }
            out
        },
    }
}

/// Every value of `o`, with `p` put in front.
pub open spec fn prefixed(p: Seq<char>, o: Option<Seq<char>>) -> Option<Seq<char>> {
    match o {
        Some(v) => Some(p + v),
        None => None,
    }
}

/// Reads a field from its raw form: `None` for the null marker, else the
/// unescaped text. Raw text that does not decode is refused with the position
/// of the first character at fault.
pub fn decode_field(raw: &Vec<char>) -> (r: Result<Option<Vec<char>>, MalformedField>)
    ensures
        r is Err <==> decode(raw@) is None,
        r matches Ok(f) ==> decode(raw@) == Some(
            match f {
                Some(v) => Some(v@),
                None => None,
            },
        ),
{
    let n = raw.len();
    if n == 2 && raw[0] == '\\' && raw[1] == 'N' {
        assert(raw@ =~= null_marker());
        return Ok(None);
    }
    assert(raw@ != null_marker());
    let mut out: Vec<char> = Vec::new();
    let mut i: usize = 0;
    assert(raw@.skip(0) =~= raw@);
    assert(out@ + seq![] =~= out@);
    while i < n
        invariant
            n == raw@.len(),
            i <= n,
            raw@ != null_marker(),
            unescape(raw@) == prefixed(out@, unescape(raw@.skip(i as int))),
        decreases n - i,
    {
        let c = raw[i];
        let ghost s = raw@.skip(i as int);
        assert(s[0] == c);
        if c == '\\' {
            if i + 1 < n {
                let d = raw[i + 1];
                assert(s[1] == d);
                let e = if d == '\\' {
                    '\\'
                } else if d == 't' {
                    '\t'
                } else if d == 'n' {
                    '\n'
                } else if d == 'r' {
                    '\r'
                } else {
                    assert(unescape(s) is None);
                    return Err(MalformedField { position: i });
                };
                proof {
                    assert(s.skip(2) =~= raw@.skip(i + 2));
                    assert(out@.push(e) =~= out@ + seq![e]);
                    if let Some(rest) = unescape(raw@.skip(i + 2)) {
                        assert(out@ + (seq![e] + rest) =~= out@.push(e) + rest);
                    }
                }
                out.push(e);
                i = i + 2;
            } else {
                assert(unescape(s) is None);
                return Err(MalformedField { position: i });
            }
        } else if c == '\t' || c == '\n' || c == '\r' {
            assert(unescape(s) is None);
            return Err(MalformedField { position: i });
        } else {
            proof {
                assert(s.drop_first() =~= raw@.skip(i + 1));
                if let Some(rest) = unescape(raw@.skip(i + 1)) {
                    assert(out@ + (seq![c] + rest) =~= out@.push(c) + rest);
                }
            }
            out.push(c);
            i = i + 1;
        }
    }
    proof {
        assert(raw@.skip(n as int) =~= seq![]);
        assert(out@ + seq![] =~= out@);
    }
    Ok(Some(out))
}

/// The raw fields of a row line: the text between tabs.
pub open spec fn split_fields(line: Seq<char>) -> Seq<Seq<char>>
    decreases line.len(),
{
    if line.len() == 0 {
        seq![seq![]]
    } else {
        let s = split_fields(line.drop_last());
        if line.last() == '\t' {
            s.push(seq![])
        } else if s.len() == 0 {
            seq![seq![line.last()]]
        } else {
            s.update(s.len() - 1, s.last().push(line.last()))
        }
    }
}

/// Raw fields joined into a row line, a tab between each two.
pub open spec fn join_fields(fields: Seq<Seq<char>>) -> Seq<char>
    decreases fields.len(),
{
    if fields.len() == 0 {
        seq![]
    } else if fields.len() == 1 {
        fields[0]
    } else {
        join_fields(fields.drop_last()) + seq!['\t'] + fields.last()
    }
}

proof fn lemma_split_nonempty(line: Seq<char>)
    ensures
        split_fields(line).len() >= 1,
    decreases line.len(),
{
    if line.len() > 0 {
        lemma_split_nonempty(line.drop_last());
    }
}

/// Joining the fields of a line gives the line back.
pub proof fn lemma_join_split(line: Seq<char>)
    ensures
        join_fields(split_fields(line)) == line,
    decreases line.len(),
{
    if line.len() > 0 {
        let d = line.drop_last();
        let c = line.last();
        lemma_join_split(d);
        lemma_split_nonempty(d);
        let s = split_fields(d);
        if c == '\t' {
            assert(s.push(seq![]).drop_last() =~= s);
            assert(join_fields(s.push(seq![])) =~= line);
        } else {
            let u = s.update(s.len() - 1, s.last().push(c));
            if s.len() == 1 {
                assert(join_fields(u) =~= line);
            } else {
                assert(u.drop_last() =~= s.drop_last());
                assert(join_fields(s) == join_fields(s.drop_last()) + seq!['\t'] + s.last());
                assert(u.last() == s.last().push(c));
                assert(line =~= d.push(c));
                assert(join_fields(u) =~= line);
            }
        }
    }
}

/// The raw forms of a row's fields.
pub open spec fn encode_all(fields: Seq<Option<Seq<char>>>) -> Seq<Seq<char>> {
    fields.map_values(|f: Option<Seq<char>>| encode(f))
}

/// A row line whose fields all decode is given back exactly by encoding the
/// decoded fields and joining them.
pub proof fn lemma_row_round_trip(line: Seq<char>)
    requires
        forall|k: int| 0 <= k < split_fields(line).len() ==> decode(#[trigger] split_fields(line)[k]) is Some,
    ensures
        join_fields(
            encode_all(
                split_fields(line).map_values(|f: Seq<char>| decode(f)->Some_0),
            ),
        ) == line,
{
    let s = split_fields(line);
    let e = encode_all(s.map_values(|f: Seq<char>| decode(f)->Some_0));
    assert forall|k: int| 0 <= k < s.len() implies e[k] == s[k] by {
        lemma_encode_decode(s[k]);
    }
    assert(e =~= s);
    lemma_join_split(line);
}

/// The view of a decoded field.
pub open spec fn field_view(f: Option<Vec<char>>) -> Option<Seq<char>> {
    match f {
        Some(v) => Some(v@),
        None => None,
    }
}

/// A row line with a field that does not decode.
#[derive(Clone, Debug, PartialEq, Eq)]
pub struct MalformedRow {
    pub field: usize,
    pub position: usize,
}

/// Splits a row line into its raw fields.
pub fn split_row(line: &Vec<char>) -> (r: Vec<Vec<char>>)
    ensures
        r@.map_values(|v: Vec<char>| v@) == split_fields(line@),
{
    let mut done: Vec<Vec<char>> = Vec::new();
    let mut current: Vec<char> = Vec::new();
    let mut i: usize = 0;
    assert(line@.take(0) =~= seq![]);
    assert(done@.map_values(|v: Vec<char>| v@).push(current@) =~= split_fields(line@.take(0)));
    while i < line.len()
        invariant
            i <= line@.len(),
            done@.map_values(|v: Vec<char>| v@).push(current@) == split_fields(line@.take(i as int)),
        decreases line@.len() - i,
    {
        let c = line[i];
        let ghost before = done@.map_values(|v: Vec<char>| v@).push(current@);
        proof {
            assert(line@.take(i + 1).drop_last() =~= line@.take(i as int));
            assert(line@.take(i + 1).last() == c);
        }
        if c == '\t' {
            let mut field: Vec<char> = Vec::new();
            std::mem::swap(&mut field, &mut current);
            done.push(field);
            proof {
                assert(done@.map_values(|v: Vec<char>| v@).push(current@) =~= before.push(seq![]));
            }
        } else {
            current.push(c);
            proof {
                assert(done@.map_values(|v: Vec<char>| v@).push(current@) =~= before.update(
                    before.len() - 1,
                    before.last().push(c),
                ));
            }
        }
        i = i + 1;
    }
    proof {
        assert(line@.take(line@.len() as int) =~= line@);
    }
    let ghost before = done@.map_values(|v: Vec<char>| v@).push(current@);
    done.push(current);
    proof {
        assert(done@.map_values(|v: Vec<char>| v@) =~= before);
    }
    done
}

/// Splits a row line and decodes each of its fields; the first field that does
/// not decode is reported.
pub fn decode_row(line: &Vec<char>) -> (r: Result<Vec<Option<Vec<char>>>, MalformedRow>)
    ensures
        r is Err <==> exists|k: int| 0 <= k < split_fields(line@).len() && decode(#[trigger] split_fields(line@)[k]) is None,
        r matches Ok(fs) ==> fs@.len() == split_fields(line@).len() && forall|k: int|
            0 <= k < fs@.len() ==> decode(split_fields(line@)[k]) == Some(field_view(#[trigger] fs@[k])),
{
    let raw = split_row(line);
    let ghost s = split_fields(line@);
    assert(raw@.len() == s.len());
    let mut out: Vec<Option<Vec<char>>> = Vec::new();
    let mut k: usize = 0;
    while k < raw.len()
        invariant
            s == split_fields(line@),
            raw@.map_values(|v: Vec<char>| v@) == s,
            k <= raw@.len(),
            out@.len() == k,
            forall|j: int| 0 <= j < k ==> decode(s[j]) == Some(field_view(#[trigger] out@[j])),
        decreases raw@.len() - k,
    {
        assert(raw@[k as int]@ == s[k as int]);
        match decode_field(&raw[k]) {
            Ok(f) => {
                out.push(f);
            },
            Err(e) => {
                return Err(MalformedRow { field: k, position: e.position });
            },
        }
        k = k + 1;
    }
    proof {
        assert forall|j: int| 0 <= j < s.len() implies decode(#[trigger] s[j]) is Some by {
            assert(decode(s[j]) == Some(field_view(out@[j])));
        }
    }
    Ok(out)
}

/// Encodes each field and joins them into a row line.
pub fn encode_row(fields: &Vec<Option<Vec<char>>>) -> (r: Vec<char>)
    ensures
        r@ == join_fields(encode_all(fields@.map_values(|f: Option<Vec<char>>| field_view(f)))),
{
    let ghost views = fields@.map_values(|f: Option<Vec<char>>| field_view(f));
    let mut out: Vec<char> = Vec::new();
    let mut k: usize = 0;
    while k < fields.len()
        invariant
            views == fields@.map_values(|f: Option<Vec<char>>| field_view(f)),
            k <= fields@.len(),
            out@ == join_fields(encode_all(views.take(k as int))),
        decreases fields@.len() - k,
    {
        let raw = encode_field(&fields[k]);
        let ghost prev = out@;
        if k > 0 {
            out.push('\t');
        }
        let mut j: usize = 0;
        while j < raw.len()
            invariant
                j <= raw@.len(),
                out@ == (if k > 0 { prev + seq!['\t'] } else { prev }) + raw@.take(j as int),
            decreases raw@.len() - j,
        {
            out.push(raw[j]);
            proof {
                assert(raw@.take(j + 1) =~= raw@.take(j as int).push(raw@[j as int]));
            }
            j = j + 1;
        }
        proof {
            assert(raw@.take(raw@.len() as int) =~= raw@);
            let t = encode_all(views.take(k + 1));
            assert(t.drop_last() =~= encode_all(views.take(k as int)));
            assert(t.last() == raw@);
            if k == 0 {
                assert(prev =~= seq![]);
            }
            assert(out@ =~= join_fields(t));
        }
        k = k + 1;
    }
    proof {
        assert(views.take(fields@.len() as int) =~= views);
    }
    out
}

} // verus!
