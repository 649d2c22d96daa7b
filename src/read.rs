use vstd::prelude::*;
use crate::cell::Cell;
use crate::record::cells_wf;
use crate::encode::{
    cells_from_fields, fields_cells,    csv_field, csv_line, csv_text_of, escape_quotes, join_fields, needs_quotes, strings_view, table_view,
};

verus! {

/// Reads the rest of a quoted field (after its opening quote): its content,
/// with doubled quotes read as one, and how many characters were read,
/// closing quote included.
pub open spec fn read_quoted(s: Seq<char>) -> Option<(Seq<char>, int)>
    decreases s.len(),
{
    if s.len() == 0 {
        None
    } else if s[0] == '"' {
        if s.len() > 1 && s[1] == '"' {
            match read_quoted(s.subrange(2, s.len() as int)) {
                Some((f, n)) => Some((seq!['"'] + f, n + 2)),
                None => None,
            }
        } else {
            Some((Seq::empty(), 1))
        }
    } else {
        match read_quoted(s.drop_first()) {
            Some((f, n)) => Some((seq![s[0]] + f, n + 1)),
            None => None,
        }
    }
}

/// The length of an unquoted field at the start of `s`.
pub open spec fn plain_len(s: Seq<char>) -> int
    decreases s.len(),
{
    if s.len() == 0 || s[0] == ',' || s[0] == '\n' {
        0
    } else {
        1 + plain_len(s.drop_first())
    }
}

/// The field at the start of `s`, and how many characters it takes.
pub open spec fn read_field(s: Seq<char>) -> Option<(Seq<char>, int)> {
    if s.len() > 0 && s[0] == '"' {
        match read_quoted(s.drop_first()) {
            Some((f, n)) => Some((f, n + 1)),
            None => None,
        }
    } else {
        Some((s.subrange(0, plain_len(s)), plain_len(s)))
    }
}

/// The row at the start of `s`, and how many characters it takes, line feed
/// included.
pub open spec fn read_row(s: Seq<char>) -> Option<(Seq<Seq<char>>, int)>
    decreases s.len(),
{
    match read_field(s) {
        None => None,
        Some((f, n)) => if 0 <= n < s.len() && s[n] == ',' {
            match read_row(s.subrange(n + 1, s.len() as int)) {
                Some((fs, m)) => Some((seq![f] + fs, n + 1 + m)),
                None => None,
            }
        } else if 0 <= n < s.len() && s[n] == '\n' {
            Some((seq![f], n + 1))
        } else {
            None
        },
    }
}

/// The rows that the text `s` holds.
pub open spec fn read_table(s: Seq<char>) -> Option<Seq<Seq<Seq<char>>>>
    decreases s.len(),
{
    if s.len() == 0 {
        Some(Seq::empty())
    } else {
        match read_row(s) {
            Some((r, n)) => if 0 < n <= s.len() {
                match read_table(s.subrange(n, s.len() as int)) {
                    Some(t) => Some(seq![r] + t),
                    None => None,
                }
            } else {
                None
            },
            None => None,
        }
    }
}

proof fn lemma_read_quoted(f: Seq<char>, rest: Seq<char>)
    requires
        rest.len() == 0 || rest[0] != '"',
    ensures
        read_quoted(escape_quotes(f) + seq!['"'] + rest) == Some((f, escape_quotes(f).len() + 1int)),
    decreases f.len(),
{
    let s = escape_quotes(f) + seq!['"'] + rest;
    if f.len() == 0 {
        assert(escape_quotes(f) =~= Seq::<char>::empty());
        assert(s[0] == '"');
        if s.len() > 1 {
            assert(s[1] == rest[0]);
        }
    } else {
        let t = f.drop_first();
        lemma_read_quoted(t, rest);
        let tail = escape_quotes(t) + seq!['"'] + rest;
        if f[0] == '"' {
            assert(s =~= seq!['"', '"'] + tail);
            assert(s.subrange(2, s.len() as int) =~= tail);
            assert(seq!['"'] + t =~= f);
        } else {
            assert(s =~= seq![f[0]] + tail);
            assert(s.drop_first() =~= tail);
            assert(seq![f[0]] + t =~= f);
        }
    }
}

proof fn lemma_plain_len(f: Seq<char>, rest: Seq<char>)
    requires
        !needs_quotes(f),
        rest.len() > 0,
        rest[0] == ',' || rest[0] == '\n',
    ensures
        plain_len(f + rest) == f.len(),
    decreases f.len(),
{
    let s = f + rest;
    if f.len() == 0 {
        assert(s =~= rest);
    } else {
        assert(f[0] != ',' && f[0] != '\n' && f[0] != '"' && f[0] != '\r') by {
            if f[0] == ',' || f[0] == '\n' || f[0] == '"' || f[0] == '\r' {
                assert(needs_quotes(f));
            }
        }
        assert(!needs_quotes(f.drop_first())) by {
            if needs_quotes(f.drop_first()) {
                let i = choose|i: int| 0 <= i < f.drop_first().len() && (f.drop_first()[i] == ','
                    || f.drop_first()[i] == '"' || f.drop_first()[i] == '\r' || f.drop_first()[i] == '\n');
                assert(f[i + 1] == f.drop_first()[i]);
            }
        }
        lemma_plain_len(f.drop_first(), rest);
        assert(s.drop_first() =~= f.drop_first() + rest);
    }
}

proof fn lemma_read_field(f: Seq<char>, rest: Seq<char>)
    requires
        rest.len() > 0,
        rest[0] == ',' || rest[0] == '\n',
    ensures
        read_field(csv_field(f) + rest) == Some((f, csv_field(f).len() as int)),
{
    let s = csv_field(f) + rest;
    if needs_quotes(f) {
        lemma_read_quoted(f, rest);
        assert(s.drop_first() =~= escape_quotes(f) + seq!['"'] + rest);
    } else {
        lemma_plain_len(f, rest);
        if f.len() > 0 {
            assert(f[0] != '"') by {
                if f[0] == '"' {
                    assert(needs_quotes(f));
                }
            }
        }
        assert(s.subrange(0, f.len() as int) =~= f);
    }
}

proof fn lemma_read_joined(fs: Seq<Seq<char>>, rest: Seq<char>)
    requires
        fs.len() >= 1,
    ensures
        read_row(join_fields(fs) + seq!['\n'] + rest) == Some((fs, join_fields(fs).len() + 1int)),
    decreases fs.len(),
{
    let s = join_fields(fs) + seq!['\n'] + rest;
    if fs.len() == 1 {
        lemma_read_field(fs[0], seq!['\n'] + rest);
        assert(s =~= csv_field(fs[0]) + (seq!['\n'] + rest));
        assert(seq![fs[0]] =~= fs);
    } else {
        let tail = fs.drop_first();
        lemma_read_joined(tail, rest);
        let after = seq![','] + join_fields(tail) + seq!['\n'] + rest;
        lemma_read_field(fs[0], after);
        assert(s =~= csv_field(fs[0]) + after);
        let n = csv_field(fs[0]).len() as int;
        assert(s[n] == ',');
        assert(s.subrange(n + 1, s.len() as int) =~= join_fields(tail) + seq!['\n'] + rest);
        assert(seq![fs[0]] + tail =~= fs);
    }
}

proof fn lemma_blank_join(fs: Seq<Seq<char>>)
    requires
        fs.len() >= 1,
        join_fields(fs).len() == 0,
    ensures
        fs =~= seq![Seq::<char>::empty()],
{
    if fs.len() > 1 {
        assert(join_fields(fs).len() >= 1);
    }
    if needs_quotes(fs[0]) {
        assert(csv_field(fs[0]).len() >= 2);
    }
    assert(fs[0] =~= Seq::<char>::empty());
    assert(fs =~= seq![Seq::<char>::empty()]);
}

proof fn lemma_read_line(fs: Seq<Seq<char>>, rest: Seq<char>)
    requires
        fs.len() >= 1,
    ensures
        read_row(csv_line(fs) + rest) == Some((fs, csv_line(fs).len() as int)),
{
    if join_fields(fs).len() == 0 {
        lemma_blank_join(fs);
        let s = csv_line(fs) + rest;
        assert(s =~= seq!['"', '"', '\n'] + rest);
        assert(s.drop_first() =~= seq!['"'] + (seq!['\n'] + rest));
        assert(read_quoted(s.drop_first()) == Some((Seq::<char>::empty(), 1int)));
        assert(read_field(s) == Some((Seq::<char>::empty(), 2int)));
        assert(s[2] == '\n');
    } else {
        lemma_read_joined(fs, rest);
        assert(csv_line(fs) + rest =~= join_fields(fs) + seq!['\n'] + rest);
    }
}

/// Reading the text written for a table gives the table back, provided each
/// row has a field.
pub proof fn lemma_read_written_table(t: Seq<Seq<Seq<char>>>)
    requires
        forall|i: int| 0 <= i < t.len() ==> (#[trigger] t[i]).len() >= 1,
    ensures
        read_table(csv_text_of(t)) == Some(t),
    decreases t.len(),
{
    if t.len() > 0 {
        let tail = t.drop_first();
        assert forall|i: int| 0 <= i < tail.len() implies (#[trigger] tail[i]).len() >= 1 by {
            assert(tail[i] == t[i + 1]);
        }
        lemma_read_written_table(tail);
        let s = csv_text_of(t);
        lemma_read_line(t[0], csv_text_of(tail));
        assert(s =~= csv_line(t[0]) + csv_text_of(tail));
        let n = csv_line(t[0]).len() as int;
        assert(s.subrange(n, s.len() as int) =~= csv_text_of(tail));
        assert(seq![t[0]] + tail =~= t);
    }
}

/// The text from position `i` on.
pub open spec fn suffix(s: Seq<char>, i: int) -> Seq<char> {
    s.subrange(i, s.len() as int)
}

fn quoted_at(text: &str, n: usize, i: usize) -> (r: Option<(String, usize)>)
    requires
        n == text@.len(),
        i <= n,
    ensures
        match read_quoted(suffix(text@, i as int)) {
            Some((f, m)) => r matches Some((s, j)) && s@ == f && j == i + m && i < j <= n,
            None => r is None,
        },
{
    let mut acc = String::new();
    let mut j: usize = i;
    while j < n
        invariant
            n == text@.len(),
            i <= j <= n,
            read_quoted(suffix(text@, i as int)) == match read_quoted(suffix(text@, j as int)) {
                Some((f, m)) => Some((acc@ + f, (j - i) + m)),
                None => None,
            },
        decreases n - j,
    {
        let ghost sj = suffix(text@, j as int);
        let c = text.get_char(j);
        assert(sj[0] == c);
        if c == '"' {
            if j + 1 < n && text.get_char(j + 1) == '"' {
                assert(sj[1] == '"');
                assert(sj.subrange(2, sj.len() as int) =~= suffix(text@, j + 2));
                let ghost old_acc = acc@;
                acc.append(text.substring_char(j, j + 1));
                proof {
                    match read_quoted(suffix(text@, j + 2)) {
                        Some((f, m)) => {
                            assert(old_acc + (seq!['"'] + f) =~= acc@ + f);
                        },
                        None => {},
                    }
                }
                j = j + 2;
            } else {
                if j + 1 < n {
                    assert(sj[1] == text@[j + 1]);
                }
                assert(acc@ + Seq::<char>::empty() =~= acc@);
                return Some((acc, j + 1));
            }
        } else {
            assert(sj.drop_first() =~= suffix(text@, j + 1));
            let ghost old_acc = acc@;
            acc.append(text.substring_char(j, j + 1));
            proof {
                match read_quoted(suffix(text@, j + 1)) {
                    Some((f, m)) => {
                        assert(old_acc + (seq![c] + f) =~= acc@ + f);
                    },
                    None => {},
                }
            }
            j = j + 1;
        }
    }
    assert(suffix(text@, j as int).len() == 0);
    None
}

fn plain_end(text: &str, n: usize, i: usize) -> (r: usize)
    requires
        n == text@.len(),
        i <= n,
    ensures
        r == i + plain_len(suffix(text@, i as int)),
        i <= r <= n,
{
    let mut j: usize = i;
    while j < n
        invariant
            n == text@.len(),
            i <= j <= n,
            plain_len(suffix(text@, i as int)) == (j - i) + plain_len(suffix(text@, j as int)),
        decreases n - j,
    {
        let c = text.get_char(j);
        assert(suffix(text@, j as int)[0] == c);
        if c == ',' || c == '\n' {
            return j;
        }
        assert(suffix(text@, j as int).drop_first() =~= suffix(text@, j + 1));
        j = j + 1;
    }
    j
}

fn field_at(text: &str, n: usize, i: usize) -> (r: Option<(String, usize)>)
    requires
        n == text@.len(),
        i <= n,
    ensures
        match read_field(suffix(text@, i as int)) {
            Some((f, m)) => r matches Some((s, j)) && s@ == f && j == i + m && i <= j <= n,
            None => r is None,
        },
{
    let ghost si = suffix(text@, i as int);
    if i < n && text.get_char(i) == '"' {
        assert(si[0] == '"');
        assert(si.drop_first() =~= suffix(text@, i + 1));
        match quoted_at(text, n, i + 1) {
            Some((f, j)) => Some((f, j)),
            None => None,
        }
    } else {
        if i < n {
            assert(si[0] == text@[i as int]);
        }
        let e = plain_end(text, n, i);
        let f = text.substring_char(i, e).to_string();
        assert(f@ =~= si.subrange(0, plain_len(si)));
        Some((f, e))
    }
}

fn row_at(text: &str, n: usize, i: usize) -> (r: Option<(Vec<String>, usize)>)
    requires
        n == text@.len(),
        i <= n,
    ensures
        match read_row(suffix(text@, i as int)) {
            Some((fs, m)) => r matches Some((v, j)) && strings_view(v@) == fs && j == i + m && i < j <= n,
            None => r is None,
        },
{
    let mut acc: Vec<String> = Vec::new();
    let mut j: usize = i;
    loop
        invariant
            n == text@.len(),
            i <= j <= n,
            read_row(suffix(text@, i as int)) == match read_row(suffix(text@, j as int)) {
                Some((fs, m)) => Some((strings_view(acc@) + fs, (j - i) + m)),
                None => None,
            },
        decreases n - j,
    {
        let ghost sj = suffix(text@, j as int);
        match field_at(text, n, j) {
            None => {
                return None;
            },
            Some((f, e)) => {
                let ghost m = e - j;
                if e < n && text.get_char(e) == ',' {
                    assert(sj[m] == ',');
                    assert(sj.subrange(m + 1, sj.len() as int) =~= suffix(text@, e + 1));
                    let ghost old_acc = strings_view(acc@);
                    acc.push(f);
                    proof {
                        assert(strings_view(acc@) =~= old_acc.push(f@));
                        match read_row(suffix(text@, e + 1)) {
                            Some((fs, k)) => {
                                assert(old_acc + (seq![f@] + fs) =~= strings_view(acc@) + fs);
                            },
                            None => {},
                        }
                    }
                    j = e + 1;
                } else if e < n && text.get_char(e) == '\n' {
                    assert(sj[m] == '\n');
                    let ghost old_acc = strings_view(acc@);
                    acc.push(f);
                    proof {
                        assert(strings_view(acc@) =~= old_acc + seq![f@]);
                    }
                    return Some((acc, e + 1));
                } else {
                    if e < n {
                        assert(sj[m] == text@[e as int]);
                    }
                    return None;
                }
            },
        }
    }
}

/// Reads comma-separated text back into rows of fields: quoted fields may hold
/// commas, line breaks and doubled quotes, and every row ends with a line feed.
/// `None` when the text is not of that form.
pub fn read_csv(text: &str) -> (r: Option<Vec<Vec<String>>>)
    ensures
        match read_table(text@) {
            Some(t) => r matches Some(v) && table_view(v@) == t,
            None => r is None,
        },
{
    let n = text.unicode_len();
    let mut acc: Vec<Vec<String>> = Vec::new();
    let mut i: usize = 0;
    assert(suffix(text@, 0) =~= text@);
    loop
        invariant
            n == text@.len(),
            i <= n,
            read_table(text@) == match read_table(suffix(text@, i as int)) {
                Some(t) => Some(table_view(acc@) + t),
                None => None,
            },
        decreases n - i,
    {
        let ghost si = suffix(text@, i as int);
        if i == n {
            assert(table_view(acc@) + Seq::<Seq<Seq<char>>>::empty() =~= table_view(acc@));
            return Some(acc);
        }
        match row_at(text, n, i) {
            None => {
                return None;
            },
            Some((row, j)) => {
                assert(si.subrange(j - i, si.len() as int) =~= suffix(text@, j as int));
                let ghost old_acc = table_view(acc@);
                acc.push(row);
                proof {
                    assert(table_view(acc@) =~= old_acc.push(strings_view(row@)));
                    match read_table(suffix(text@, j as int)) {
                        Some(t) => {
                            assert(old_acc + (seq![strings_view(row@)] + t) =~= table_view(acc@) + t);
                        },
                        None => {},
                    }
                }
                i = j;
            },
        }
    }
}

/// Reads encoded text back into worksheet rows: the first line is taken as the
/// header and skipped, each later line's fields become cells as
/// `cells_from_fields` reads them. `None` when the text is not comma-separated
/// rows, or holds no line.
pub fn rows_from_text(text: &str) -> (r: Option<Vec<Vec<Cell>>>)
    ensures
        r is Some <==> (read_table(text@) matches Some(t) && t.len() >= 1),
        r matches Some(rows) ==> {
            let t = read_table(text@)->0;
            &&& rows@.len() == t.len() - 1
            &&& forall|k: int| 0 <= k < rows@.len() ==> fields_cells((#[trigger] rows@[k])@, t[k + 1])
            &&& forall|k: int| 0 <= k < rows@.len() ==> cells_wf((#[trigger] rows@[k])@)
        },
{
    let table = match read_csv(text) {
        Some(t) => t,
        None => {
            return None;
        },
    };
    if table.len() == 0 {
        return None;
    }
    let mut rows: Vec<Vec<Cell>> = Vec::new();
    let mut k: usize = 1;
    while k < table.len()
        invariant
            1 <= k <= table@.len(),
            table_view(table@) == read_table(text@)->0,
            rows@.len() == k - 1,
            forall|q: int| 0 <= q < rows@.len() ==> fields_cells((#[trigger] rows@[q])@, table_view(table@)[q + 1]),
            forall|q: int| 0 <= q < rows@.len() ==> cells_wf((#[trigger] rows@[q])@),
        decreases table@.len() - k,
    {
        let cells = cells_from_fields(&table[k]);
        rows.push(cells);
        k = k + 1;
    }
    Some(rows)
}

} // verus!
