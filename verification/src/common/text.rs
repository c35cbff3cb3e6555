//! Text helpers over `Seq<char>` models: decimal numerals, comma-separated
//! lists, character removal and string comparison.
use vstd::prelude::*;

verus! {

/// The ASCII digit for `d < 10`.
pub open spec fn digit_char(d: nat) -> char {
    if d == 0 {
        '0'
    } else if d == 1 {
        '1'
    } else if d == 2 {
        '2'
    } else if d == 3 {
        '3'
    } else if d == 4 {
        '4'
    } else if d == 5 {
        '5'
    } else if d == 6 {
        '6'
    } else if d == 7 {
        '7'
    } else if d == 8 {
        '8'
    } else {
        '9'
    }
}

/// The decimal numeral of `n`, without leading zeros (as `Display` prints it).
pub open spec fn decimal(n: nat) -> Seq<char>
    decreases n,
{
    if n < 10 {
        seq![digit_char(n)]
    } else {
        decimal(n / 10).push(digit_char(n % 10))
    }
}

/// The decimal numeral of a signed integer, with a leading `-` when negative.
pub open spec fn signed_decimal(i: int) -> Seq<char> {
    if i < 0 {
        seq!['-'] + decimal((-i) as nat)
    } else {
        decimal(i as nat)
    }
}

/// The pieces of `s` between commas, as `str::split(",")` yields them: there is
/// always at least one piece, and `k` commas give `k + 1` pieces.
pub open spec fn split_commas(s: Seq<char>) -> Seq<Seq<char>>
    decreases s.len(),
{
    if s.len() == 0 {
        seq![Seq::<char>::empty()]
    } else {
        let r = split_commas(s.drop_last());
        if s.last() == ',' {
            r.push(Seq::<char>::empty())
        } else {
            r.update(r.len() - 1, r.last().push(s.last()))
        }
    }
}

/// The pieces joined with `,` between them, as `[String]::join(",")` does.
pub open spec fn join_commas(parts: Seq<Seq<char>>) -> Seq<char>
    decreases parts.len(),
{
    if parts.len() == 0 {
        Seq::<char>::empty()
    } else if parts.len() == 1 {
        parts[0]
    } else {
        join_commas(parts.drop_last()) + seq![','] + parts.last()
    }
}

/// `s` with every occurrence of `c` taken out.
pub open spec fn without_char(s: Seq<char>, c: char) -> Seq<char>
    decreases s.len(),
{
    if s.len() == 0 {
        Seq::<char>::empty()
    } else if s.last() == c {
        without_char(s.drop_last(), c)
    } else {
        without_char(s.drop_last(), c).push(s.last())
    }
}

/// `split_commas` never yields an empty list.
pub proof fn lemma_split_nonempty(s: Seq<char>)
    ensures
        split_commas(s).len() >= 1,
    decreases s.len(),
{
    if s.len() > 0 {
        lemma_split_nonempty(s.drop_last());
    }
}

/// A text without commas splits into itself alone.
pub proof fn lemma_split_no_comma(s: Seq<char>)
    requires
        !s.contains(','),
    ensures
        split_commas(s) == seq![s],
    decreases s.len(),
{
    if s.len() == 0 {
        assert(s =~= Seq::<char>::empty());
    } else {
        let t = s.drop_last();
        assert(!t.contains(',')) by {
            if t.contains(',') {
                let k = choose|k: int| 0 <= k < t.len() && t[k] == ',';
                assert(s[k] == ',');
            }
        }
        lemma_split_no_comma(t);
        assert(s.last() != ',') by {
            assert(s[s.len() - 1] == s.last());
        }
        assert(t.push(s.last()) =~= s);
        assert(seq![t].update(0, t.push(s.last())) =~= seq![s]);
    }
}

/// Appending `,` and a comma-free text appends one piece.
pub proof fn lemma_split_append(s: Seq<char>, t: Seq<char>)
    requires
        !t.contains(','),
    ensures
        split_commas(s + seq![','] + t) == split_commas(s).push(t),
    decreases t.len(),
{
    let u = s + seq![','] + t;
    if t.len() == 0 {
        assert(u =~= s.push(','));
        assert(u.drop_last() =~= s);
        assert(u.last() == ',');
        assert(t =~= Seq::<char>::empty());
    } else {
        let t0 = t.drop_last();
        assert(!t0.contains(',')) by {
            if t0.contains(',') {
                let k = choose|k: int| 0 <= k < t0.len() && t0[k] == ',';
                assert(t[k] == ',');
            }
        }
        lemma_split_append(s, t0);
        assert(u.drop_last() =~= s + seq![','] + t0);
        assert(u.last() == t.last());
        assert(t.last() != ',') by {
            assert(t[t.len() - 1] == t.last());
        }
        assert(t0.push(t.last()) =~= t);
        let r = split_commas(s).push(t0);
        assert(r.update(r.len() - 1, r.last().push(t.last())) =~= split_commas(s).push(t));
    }
}

/// Splitting undoes joining, for one or more pieces that hold no comma.
pub proof fn lemma_split_join(parts: Seq<Seq<char>>)
    requires
        parts.len() >= 1,
        forall|i: int| 0 <= i < parts.len() ==> !(#[trigger] parts[i]).contains(','),
    ensures
        split_commas(join_commas(parts)) == parts,
    decreases parts.len(),
{
    if parts.len() == 1 {
        lemma_split_no_comma(parts[0]);
        assert(seq![parts[0]] =~= parts);
    } else {
        let init = parts.drop_last();
        assert forall|i: int| 0 <= i < init.len() implies !(#[trigger] init[i]).contains(',') by {
            assert(init[i] == parts[i]);
        }
        lemma_split_join(init);
        assert(!parts.last().contains(',')) by {
            assert(parts[parts.len() - 1] == parts.last());
        }
        lemma_split_append(join_commas(init), parts.last());
        assert(init.push(parts.last()) =~= parts);
    }
}

/// The numeral of a single digit.
pub fn digit_text(d: u64) -> (s: &'static str)
    requires
        d < 10,
    ensures
        s@ == seq![digit_char(d as nat)],
{
    let digits = "0123456789";
    proof {
        reveal_strlit("0123456789");
    }
    let s = digits.substring_char(d as usize, d as usize + 1);
    assert(s@ =~= seq![digits@[d as int]]);
    s
}

/// `n.to_string()` for an unsigned integer.
pub fn decimal_text(n: u64) -> (s: String)
    ensures
        s@ == decimal(n as nat),
    decreases n,
{
    if n < 10 {
        String::from_str(digit_text(n))
    } else {
        let mut s = decimal_text(n / 10);
        s.append(digit_text(n % 10));
        s
    }
}

/// `i.to_string()` for a signed 32-bit integer.
pub fn signed_decimal_text(i: i32) -> (s: String)
    ensures
        s@ == signed_decimal(i as int),
{
    if i < 0 {
        let m: i64 = i as i64;
        let pos: u64 = (-m) as u64;
        let digits = decimal_text(pos);
        let mut s = String::from_str("-");
        proof {
            reveal_strlit("-");
        }
        s.append(digits.as_str());
        s
    } else {
        decimal_text(i as u64)
    }
}

/// `a == b` on text.
pub fn same_text(a: &str, b: &str) -> (r: bool)
    ensures
        r == (a@ == b@),
{
    let n = a.unicode_len();
    if n != b.unicode_len() {
        return false;
    }
    let mut i: usize = 0;
    while i < n
        invariant
            n == a@.len(),
            n == b@.len(),
            i <= n,
            forall|j: int| 0 <= j < i ==> a@[j] == b@[j],
        decreases n - i,
    {
        if a.get_char(i) != b.get_char(i) {
            return false;
        }
        i = i + 1;
    }
    assert(a@ =~= b@);
    true
}

/// The pieces of `s` between commas, as `s.split(",")` yields them.
pub fn split_commas_text(s: &str) -> (parts: Vec<String>)
    ensures
        parts@.len() == split_commas(s@).len(),
        forall|i: int| 0 <= i < parts@.len() ==> (#[trigger] parts@[i])@ == split_commas(s@)[i],
{
    let n = s.unicode_len();
    let mut parts: Vec<String> = Vec::new();
    let mut start: usize = 0;
    let mut i: usize = 0;
    while i < n
        invariant
            n == s@.len(),
            start <= i <= n,
            split_commas(s@.take(i as int)).len() == parts@.len() + 1,
            forall|j: int|
                0 <= j < parts@.len() ==> (#[trigger] parts@[j])@ == split_commas(
                    s@.take(i as int),
                )[j],
            split_commas(s@.take(i as int)).last() == s@.subrange(start as int, i as int),
        decreases n - i,
    {
        let c = s.get_char(i);
        assert(s@.take(i + 1).drop_last() =~= s@.take(i as int));
        assert(s@.take(i + 1).last() == c);
        if c == ',' {
            let piece = s.substring_char(start, i);
            parts.push(String::from_str(piece));
            start = i + 1;
            assert(s@.subrange(start as int, (i + 1) as int) =~= Seq::<char>::empty());
        } else {
            assert(s@.subrange(start as int, i as int).push(c) =~= s@.subrange(
                start as int,
                (i + 1) as int,
            ));
        }
        i = i + 1;
    }
    let last = s.substring_char(start, n);
    parts.push(String::from_str(last));
    assert(s@.take(n as int) =~= s@);
    parts
}

/// The texts joined with `,` between them, as `join(",")` does.
pub fn join_commas_text(parts: &Vec<String>) -> (s: String)
    ensures
        s@ == join_commas(parts@.map_values(|p: String| p@)),
{
    let ghost views = parts@.map_values(|p: String| p@);
    let mut s = String::new();
    let mut i: usize = 0;
    proof {
        reveal_strlit(",");
    }
    while i < parts.len()
        invariant
            views == parts@.map_values(|p: String| p@),
            i <= parts@.len(),
            s@ == join_commas(views.take(i as int)),
        decreases parts@.len() - i,
    {
        proof {
            reveal_strlit(",");
        }
        assert(views.take(i + 1).drop_last() =~= views.take(i as int));
        assert(views.take(i + 1).last() == parts@[i as int]@);
        if i > 0 {
            s.append(",");
        } else {
            assert(s@ =~= Seq::<char>::empty());
            assert(views.take(1) =~= seq![parts@[0]@]);
        }
        s.append(parts[i].as_str());
        i = i + 1;
    }
    assert(views.take(parts@.len() as int) =~= views);
    s
}

/// `s.replace(c, "")` for a one-character pattern.
pub fn remove_char(s: &str, c: char) -> (r: String)
    ensures
        r@ == without_char(s@, c),
{
    let n = s.unicode_len();
    let mut r = String::new();
    let mut i: usize = 0;
    while i < n
        invariant
            n == s@.len(),
            i <= n,
            r@ == without_char(s@.take(i as int), c),
        decreases n - i,
    {
        let d = s.get_char(i);
        assert(s@.take(i + 1).drop_last() =~= s@.take(i as int));
        assert(s@.take(i + 1).last() == d);
        if d != c {
            let one = s.substring_char(i, i + 1);
            assert(one@ =~= seq![d]);
            r.append(one);
            assert(r@ =~= without_char(s@.take(i as int), c).push(d));
        }
        i = i + 1;
    }
    assert(s@.take(n as int) =~= s@);
    r
}

} // verus!
