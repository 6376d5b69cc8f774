use vstd::prelude::*;

use crate::text::push_char;

verus! {

/// The character at `i` ends a field: a comma whose preceding character is
/// not a backslash. Only the single preceding character is looked at, so a
/// comma after two backslashes is escaped too.
pub open spec fn is_separator(s: Seq<char>, i: int) -> bool {
    s[i] == ',' && !(i > 0 && s[i - 1] == '\\')
}

/// `c` with every two-character sequence `\,` collapsed to `,`.
/// (Occurrences of `\,` never overlap, so reading it from the right
/// agrees with a left-to-right replacement.)
pub open spec fn unescape(c: Seq<char>) -> Seq<char>
    decreases c.len(),
{
    if c.len() == 0 {
        c
    } else if c.len() >= 2 && c.last() == ',' && c[c.len() - 2] == '\\' {
        unescape(c.subrange(0, c.len() - 2)).push(',')
    } else {
        unescape(c.drop_last()).push(c.last())
    }
}

/// The state after reading `s` from the left: the fields finished so far
/// (already unescaped) and the raw text of the field being read.
pub open spec fn scan(s: Seq<char>) -> (Seq<Seq<char>>, Seq<char>)
    decreases s.len(),
{
    if s.len() == 0 {
        (Seq::empty(), Seq::empty())
    } else {
        let (done, cur) = scan(s.drop_last());
        if is_separator(s, s.len() - 1) {
            (done.push(unescape(cur)), Seq::empty())
        } else {
            (done, cur.push(s.last()))
        }
    }
}

/// The fields of `s`: the finished ones, then the last one unless it is empty.
pub open spec fn split_fields(s: Seq<char>) -> Seq<Seq<char>> {
    let (done, cur) = scan(s);
    if cur.len() > 0 {
        done.push(unescape(cur))
    } else {
        done
    }
}

/// The views of a list of strings.
pub open spec fn views(v: Seq<String>) -> Seq<Seq<char>> {
    v.map_values(|x: String| x@)
}

/// Collapses every `\,` of `raw` to `,`.
fn unescape_commas(raw: &str) -> (r: String)
    ensures
        r@ == unescape(raw@),
{
    let mut out = String::new();
    let mut pending = false;
    let ghost s = raw@;
    for ch in it: raw.chars()
        invariant
            it.seq() == s,
            0 <= it.index() <= s.len(),
            pending <==> (it.index() > 0 && s[it.index() - 1] == '\\'),
            out@ + (if pending { seq!['\\'] } else { Seq::<char>::empty() }) == unescape(
                s.subrange(0, it.index() as int),
            ),
    {
        let ghost i = it.index();
        let ghost p = s.subrange(0, i as int);
        let ghost q = s.subrange(0, i + 1);
        assert(q.drop_last() =~= p);
        assert(ch == s[i as int]);
        if pending {
            assert(unescape(p) =~= unescape(p.drop_last()).push('\\'));
            assert(out@ =~= (out@ + seq!['\\']).drop_last());
        } else {
            assert(out@ =~= out@ + Seq::<char>::empty());
        }
        if pending && ch == ',' {
            assert(q.subrange(0, q.len() - 2) =~= p.drop_last());
            push_char(&mut out, ',');
            pending = false;
        } else {
            if pending {
                push_char(&mut out, '\\');
            }
            if ch == '\\' {
                pending = true;
            } else {
                push_char(&mut out, ch);
                pending = false;
            }
        }
        assert(out@ + (if pending { seq!['\\'] } else { Seq::<char>::empty() }) =~= unescape(q));
    }
    if pending {
        push_char(&mut out, '\\');
    }
    assert(s.subrange(0, s.len() as int) =~= s);
    out
}

/// Splits `source` at every comma not preceded by a backslash. Inside each
/// field `\,` becomes `,`; other backslashes stay. A trailing empty field is
/// dropped, so the empty string gives no field at all.
pub fn split_at_comma(source: &str) -> (r: Vec<String>)
    ensures
        views(r@) == split_fields(source@),
{
    let mut items: Vec<String> = Vec::new();
    let mut escaped = false;
    let mut item = String::new();
    let ghost s = source@;
    for ch in it: source.chars()
        invariant
            it.seq() == s,
            0 <= it.index() <= s.len(),
            escaped <==> (it.index() > 0 && s[it.index() - 1] == '\\'),
            views(items@) == scan(s.subrange(0, it.index() as int)).0,
            item@ == scan(s.subrange(0, it.index() as int)).1,
    {
        let ghost i = it.index();
        let ghost q = s.subrange(0, i + 1);
        assert(q.drop_last() =~= s.subrange(0, i as int));
        if ch == ',' && !escaped {
            let field = unescape_commas(item.as_str());
            items.push(field);
            item = String::new();
        } else {
            push_char(&mut item, ch);
        }
        escaped = ch == '\\';
        assert(views(items@) =~= scan(q).0);
    }
    assert(s.subrange(0, s.len() as int) =~= s);
    if !item.as_str().is_empty() {
        let field = unescape_commas(item.as_str());
        items.push(field);
        assert(views(items@) =~= split_fields(s));
    }
    items
}

/// `fields` written one after another with a comma between each two.
pub open spec fn join_commas(fields: Seq<Seq<char>>) -> Seq<char>
    decreases fields.len(),
{
    if fields.len() == 0 {
        Seq::empty()
    } else if fields.len() == 1 {
        fields[0]
    } else {
        join_commas(fields.drop_last()) + seq![','] + fields.last()
    }
}

/// No character of `s` is a comma.
pub open spec fn comma_free(s: Seq<char>) -> bool {
    forall|k: int| 0 <= k < s.len() ==> s[k] != ','
}

/// No character of `s` is a comma or a backslash.
pub open spec fn plain_field(s: Seq<char>) -> bool {
    forall|k: int| 0 <= k < s.len() ==> s[k] != ',' && s[k] != '\\'
}

proof fn lemma_unescape_comma_free(c: Seq<char>)
    requires
        comma_free(c),
    ensures
        unescape(c) == c,
    decreases c.len(),
{
    if c.len() > 0 {
        lemma_unescape_comma_free(c.drop_last());
        assert(c.drop_last().push(c.last()) =~= c);
    }
}

proof fn lemma_scan_append_comma_free(x: Seq<char>, u: Seq<char>)
    requires
        comma_free(u),
    ensures
        scan(x + u) == (scan(x).0, scan(x).1 + u),
    decreases u.len(),
{
    if u.len() == 0 {
        assert(x + u =~= x);
        assert(scan(x).1 + u =~= scan(x).1);
    } else {
        lemma_scan_append_comma_free(x, u.drop_last());
        assert((x + u).drop_last() =~= x + u.drop_last());
        assert(scan(x).1 + u =~= (scan(x).1 + u.drop_last()).push(u.last()));
    }
}

proof fn lemma_join_no_backslash(fields: Seq<Seq<char>>)
    requires
        forall|i: int| 0 <= i < fields.len() ==> plain_field(#[trigger] fields[i]),
    ensures
        forall|k: int| 0 <= k < join_commas(fields).len() ==> join_commas(fields)[k] != '\\',
    decreases fields.len(),
{
    if fields.len() > 1 {
        lemma_join_no_backslash(fields.drop_last());
        let a = join_commas(fields.drop_last());
        let t = fields.last();
        assert(plain_field(fields[fields.len() - 1]));
        assert forall|k: int| 0 <= k < join_commas(fields).len() implies join_commas(
            fields,
        )[k] != '\\' by {
            if k >= a.len() + 1 {
                assert(join_commas(fields)[k] == t[k - a.len() - 1]);
            }
        }
    } else if fields.len() == 1 {
        assert(plain_field(fields[0]));
    }
}

proof fn lemma_scan_join(fields: Seq<Seq<char>>)
    requires
        fields.len() > 0,
        forall|i: int| 0 <= i < fields.len() ==> plain_field(#[trigger] fields[i]),
    ensures
        scan(join_commas(fields)) == (fields.drop_last(), fields.last()),
    decreases fields.len(),
{
    let t = fields.last();
    assert(plain_field(fields[fields.len() - 1]));
    if fields.len() == 1 {
        lemma_scan_append_comma_free(Seq::empty(), t);
        assert(Seq::<char>::empty() + t =~= t);
        assert(fields.drop_last() =~= Seq::<Seq<char>>::empty());
    } else {
        let a = join_commas(fields.drop_last());
        lemma_scan_join(fields.drop_last());
        lemma_join_no_backslash(fields.drop_last());
        let b = a + seq![','];
        assert(b.drop_last() =~= a);
        let prev = fields.drop_last().last();
        assert(plain_field(fields[fields.len() - 2]));
        lemma_unescape_comma_free(prev);
        assert(scan(b) == (fields.drop_last().drop_last().push(prev), Seq::<char>::empty()));
        assert(fields.drop_last().drop_last().push(prev) =~= fields.drop_last());
        lemma_scan_append_comma_free(b, t);
        assert(Seq::<char>::empty() + t =~= t);
    }
}

/// A string without commas is one field, or none when it is empty.
pub proof fn lemma_split_without_comma(s: Seq<char>)
    requires
        comma_free(s),
    ensures
        split_fields(s) == (if s.len() == 0 {
            Seq::<Seq<char>>::empty()
        } else {
            seq![s]
        }),
{
    lemma_scan_append_comma_free(Seq::empty(), s);
    assert(Seq::<char>::empty() + s =~= s);
    lemma_unescape_comma_free(s);
    assert(Seq::<Seq<char>>::empty().push(s) =~= seq![s]);
}

/// Joining fields that hold no comma and no backslash with commas, then
/// splitting the result, gives the fields back, provided the last field is
/// not empty (a trailing empty field is dropped by the split).
pub proof fn lemma_join_then_split(fields: Seq<Seq<char>>)
    requires
        forall|i: int| 0 <= i < fields.len() ==> plain_field(#[trigger] fields[i]),
        fields.len() == 0 || fields.last().len() > 0,
    ensures
        split_fields(join_commas(fields)) == fields,
{
    if fields.len() > 0 {
        lemma_scan_join(fields);
        let t = fields.last();
        assert(plain_field(fields[fields.len() - 1]));
        lemma_unescape_comma_free(t);
        assert(fields.drop_last().push(t) =~= fields);
    }
}

} // verus!
