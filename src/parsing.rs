use vstd::prelude::*;

verus! {

/// Unicode's White_Space characters.
pub open spec fn is_white_space(c: char) -> bool {
    let u = c as u32;
    ||| 0x9 <= u <= 0xD
    ||| u == 0x20
    ||| u == 0x85
    ||| u == 0xA0
    ||| u == 0x1680
    ||| 0x2000 <= u <= 0x200A
    ||| u == 0x2028
    ||| u == 0x2029
    ||| u == 0x202F
    ||| u == 0x205F
    ||| u == 0x3000
}

/// The text without its white space.
pub open spec fn without_white_space(s: Seq<char>) -> Seq<char>
    decreases s.len(),
{
    if s.len() == 0 {
        s
    } else if is_white_space(s.last()) {
        without_white_space(s.drop_last())
    } else {
        without_white_space(s.drop_last()).push(s.last())
    }
}

/// `c` is a White_Space character.
pub fn white_space(c: char) -> (r: bool)
    ensures
        r == is_white_space(c),
{
    let u = c as u32;
    (0x9 <= u && u <= 0xD) || u == 0x20 || u == 0x85 || u == 0xA0 || u == 0x1680 || (0x2000 <= u
        && u <= 0x200A) || u == 0x2028 || u == 0x2029 || u == 0x202F || u == 0x205F || u == 0x3000
}

/// The characters of `s` that are not white space, in order.
pub fn strip_white_space(s: &str) -> (r: Vec<char>)
    ensures
        r@ == without_white_space(s@),
{
    broadcast use vstd::string::group_string_axioms;

    let mut kept: Vec<char> = Vec::new();
    for c in it: s.chars()
        invariant
            it.seq() == s@,
            kept@ == without_white_space(s@.take(it.index() as int)),
    {
        proof {
            let seen = s@.take(it.index() + 1);
            assert(seen.drop_last() =~= s@.take(it.index() as int));
        }
        if !white_space(c) {
            kept.push(c);
        }
    }
    assert(s@.take(s@.len() as int) =~= s@);
    kept
}

/// The pieces of `s` between the separators that `at_separator` finds, read left
/// to right, with `cur` already read into the first piece. A separator is
/// `||` for rows and `|` for cells.
pub open spec fn split_from(s: Seq<char>, cur: Seq<char>, pair: bool) -> Seq<Seq<char>>
    decreases s.len(),
{
    if s.len() == 0 {
        seq![cur]
    } else if pair && s.len() >= 2 && s[0] == '|' && s[1] == '|' {
        seq![cur] + split_from(s.skip(2), Seq::empty(), pair)
    } else if !pair && s[0] == '|' {
        seq![cur] + split_from(s.drop_first(), Seq::empty(), pair)
    } else {
        split_from(s.drop_first(), cur.push(s[0]), pair)
    }
}

/// `s` without the bars at its start.
pub open spec fn trim_start_bars(s: Seq<char>) -> Seq<char>
    decreases s.len(),
{
    if s.len() > 0 && s[0] == '|' {
        trim_start_bars(s.drop_first())
    } else {
        s
    }
}

/// `s` without the bars at its end.
pub open spec fn trim_end_bars(s: Seq<char>) -> Seq<char>
    decreases s.len(),
{
    if s.len() > 0 && s.last() == '|' {
        trim_end_bars(s.drop_last())
    } else {
        s
    }
}

/// The cell texts of one row: the row without its outer bars, cut at each bar.
pub open spec fn row_cells(row: Seq<char>) -> Seq<Seq<char>> {
    split_from(trim_end_bars(trim_start_bars(row)), Seq::empty(), false)
}

/// The cell texts of a matrix written as rows of bar-separated cells, such as
/// `| 1 | 2 |` over `| 3 | 4 |`: white space is dropped, rows are cut at each
/// `||`, and each row is cut into cells.
pub open spec fn matrix_cells_of(s: Seq<char>) -> Seq<Seq<Seq<char>>> {
    split_from(without_white_space(s), Seq::empty(), true).map_values(
        |row: Seq<char>| row_cells(row),
    )
}

/// The views of a list of character vectors.
pub open spec fn texts(v: Seq<Vec<char>>) -> Seq<Seq<char>> {
    v.map_values(|t: Vec<char>| t@)
}

/// Cuts `s` at each `||` (when `pair`) or each `|`, left to right.
fn split(s: &Vec<char>, pair: bool) -> (r: Vec<Vec<char>>)
    ensures
        texts(r@) == split_from(s@, Seq::empty(), pair),
{
    let mut pieces: Vec<Vec<char>> = Vec::new();
    let mut cur: Vec<char> = Vec::new();
    let mut i: usize = 0;
    assert(s@.skip(0) =~= s@);
    while i < s.len()
        invariant
            i <= s@.len(),
            texts(pieces@) + split_from(s@.skip(i as int), cur@, pair) == split_from(
                s@,
                Seq::empty(),
                pair,
            ),
        decreases s@.len() - i,
    {
        let ghost rest = s@.skip(i as int);
        let ghost before = texts(pieces@);
        let ghost cur_before = cur@;
        if pair && i + 1 < s.len() && s[i] == '|' && s[i + 1] == '|' {
            pieces.push(cur);
            cur = Vec::new();
            i += 2;
            assert(rest.skip(2) =~= s@.skip(i as int));
            assert(texts(pieces@) =~= before + seq![cur_before]);
        } else if !pair && s[i] == '|' {
            pieces.push(cur);
            cur = Vec::new();
            i += 1;
            assert(rest.drop_first() =~= s@.skip(i as int));
            assert(texts(pieces@) =~= before + seq![cur_before]);
        } else {
            cur.push(s[i]);
            i += 1;
            assert(rest.drop_first() =~= s@.skip(i as int));
        }
    }
    pieces.push(cur);
    assert(s@.skip(i as int) =~= Seq::<char>::empty());
    assert(texts(pieces@) =~= split_from(s@, Seq::empty(), pair));
    pieces
}

/// Dropping `k` leading bars, before a character that is no bar, is trimming the start.
proof fn lemma_trim_start(s: Seq<char>, k: int)
    requires
        0 <= k <= s.len(),
        forall|j: int| 0 <= j < k ==> s[j] == '|',
        k == s.len() || s[k] != '|',
    ensures
        trim_start_bars(s) == s.skip(k),
    decreases k,
{
    if k == 0 {
        assert(s.skip(0) =~= s);
    } else {
        lemma_trim_start(s.drop_first(), k - 1);
        assert(s.drop_first().skip(k - 1) =~= s.skip(k));
    }
}

/// Keeping the first `k` characters, when all after them are bars and the
/// last of them is none, is trimming the end.
proof fn lemma_trim_end(s: Seq<char>, k: int)
    requires
        0 <= k <= s.len(),
        forall|j: int| k <= j < s.len() ==> s[j] == '|',
        k == 0 || s[k - 1] != '|',
    ensures
        trim_end_bars(s) == s.take(k),
    decreases s.len() - k,
{
    if k == s.len() {
        assert(s.take(k) =~= s);
    } else {
        lemma_trim_end(s.drop_last(), k);
        assert(s.drop_last().take(k) =~= s.take(k));
    }
}

/// `s` without the bars at either end.
fn trim_bars(s: &Vec<char>) -> (r: Vec<char>)
    ensures
        r@ == trim_end_bars(trim_start_bars(s@)),
{
    let mut start: usize = 0;
    while start < s.len() && s[start] == '|'
        invariant
            start <= s@.len(),
            forall|j: int| 0 <= j < start ==> s@[j] == '|',
        decreases s@.len() - start,
    {
        start += 1;
    }
    proof {
        lemma_trim_start(s@, start as int);
    }
    let mut end: usize = s.len();
    while end > start && s[end - 1] == '|'
        invariant
            start <= end <= s@.len(),
            forall|j: int| end <= j < s@.len() ==> s@[j] == '|',
        decreases end,
    {
        end -= 1;
    }
    let ghost trimmed = s@.skip(start as int);
    proof {
        assert forall|j: int| end - start <= j < trimmed.len() implies trimmed[j] == '|' by {
            assert(trimmed[j] == s@[j + start]);
        }
        lemma_trim_end(trimmed, end - start);
    }
    let mut r: Vec<char> = Vec::new();
    let mut i: usize = start;
    while i < end
        invariant
            start <= i <= end <= s@.len(),
            r@ == s@.subrange(start as int, i as int),
        decreases end - i,
    {
        r.push(s[i]);
        i += 1;
        assert(r@ =~= s@.subrange(start as int, i as int));
    }
    assert(r@ =~= trimmed.take(end - start));
    r
}

/// The cell texts of a matrix written as rows of bar-separated cells; see
/// `matrix_cells_of`. Turning each text into a number is left to the caller.
pub fn matrix_cells(s: &str) -> (r: Vec<Vec<Vec<char>>>)
    ensures
        r@.len() == matrix_cells_of(s@).len(),
        forall|i: int| 0 <= i < r@.len() ==> texts(#[trigger] r@[i]@) == matrix_cells_of(s@)[i],
{
    let chars = strip_white_space(s);
    let rows = split(&chars, true);
    let ghost target = matrix_cells_of(s@);
    let mut cells: Vec<Vec<Vec<char>>> = Vec::new();
    let mut i: usize = 0;
    while i < rows.len()
        invariant
            i <= rows@.len(),
            texts(rows@) == split_from(chars@, Seq::empty(), true),
            chars@ == without_white_space(s@),
            target == matrix_cells_of(s@),
            cells@.len() == i,
            forall|k: int| 0 <= k < i ==> texts(#[trigger] cells@[k]@) == target[k],
        decreases rows@.len() - i,
    {
        let trimmed = trim_bars(&rows[i]);
        let row = split(&trimmed, false);
        proof {
            assert(texts(rows@)[i as int] == rows@[i as int]@);
        }
        cells.push(row);
        i += 1;
    }
    cells
}

} // verus!
