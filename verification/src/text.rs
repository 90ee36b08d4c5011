//! Text as a sequence of characters: searching, trimming, joining, numbers and order.
use vstd::prelude::*;

verus! {

/// The texts of a list of strings.
pub open spec fn texts(list: Seq<String>) -> Seq<Seq<char>> {
    list.map_values(|s: String| s@)
}

/// The texts of a list of string slices.
pub open spec fn slices(list: Seq<&str>) -> Seq<Seq<char>> {
    list.map_values(|s: &str| s@)
}

/// The text of an optional string.
pub open spec fn text_option(value: Option<String>) -> Option<Seq<char>> {
    match value {
        Some(s) => Some(s@),
        None => None,
    }
}

/// The characters of `s`.
pub fn chars_of(s: &str) -> (v: Vec<char>)
    ensures
        v@ == s@,
{
    let mut v: Vec<char> = Vec::new();
    for c in it: s.chars()
        invariant
            v@ == s@.take(it.index() as int),
            it.seq() == s@,
    {
        v.push(c);
        proof {
            assert(s@.take(it.index() + 1) =~= s@.take(it.index() as int).push(c));
        }
    }
    proof {
        assert(s@.take(s@.len() as int) =~= s@);
    }
    v
}

/// What stands before the first NUL character, or all of the text if there is none.
pub open spec fn cut(s: Seq<char>) -> Seq<char> {
    match s.index_of_first('\0') {
        Some(at) => s.take(at),
        None => s,
    }
}

/// A text without NUL characters is not cut, and one that is cut has none.
pub proof fn lemma_cut(s: Seq<char>)
    ensures
        cut(s) == s <==> !s.contains('\0'),
        !cut(s).contains('\0'),
        cut(s).is_prefix_of(s),
        cut(s).len() < s.len() ==> s[cut(s).len() as int] == '\0',
{
    s.index_of_first_ensures('\0');
    assert(cut(s) =~= s.subrange(0, cut(s).len() as int));
    if cut(s).contains('\0') {
        let k = choose|k: int| 0 <= k < cut(s).len() && cut(s)[k] == '\0';
        assert(s[k] == '\0');
    }
}

/// What stands before the first NUL character, or all of the text if there is none.
pub fn until_nul(s: &str) -> (t: String)
    ensures
        t@ == cut(s@),
{
    let v: Vec<char> = chars_of(s);
    proof {
        s@.index_of_first_ensures('\0');
    }
    match find_first(&v, '\0') {
        Some(at) => {
            assert(s@.subrange(0, at as int) =~= s@.take(at as int));
            s.substring_char(0, at).to_owned()
        },
        None => s.to_owned(),
    }
}

/// Whether two texts are the same.
pub fn same_text(a: &str, b: &str) -> (same: bool)
    ensures
        same == (a@ == b@),
{
    let left: String = a.to_owned();
    let right: String = b.to_owned();
    left == right
}

/// A copy of a list of strings.
pub fn copy_strings(values: &[String]) -> (list: Vec<String>)
    ensures
        texts(list@) == texts(values@),
{
    let mut list: Vec<String> = Vec::new();
    let mut i: usize = 0;
    while i < values.len()
        invariant
            i <= values@.len(),
            list@.len() == i,
            forall|k: int| 0 <= k < i ==> #[trigger] list@[k]@ == values@[k]@,
        decreases values@.len() - i,
    {
        list.push(values[i].clone());
        i += 1;
    }
    proof {
        assert(texts(list@) =~= texts(values@));
    }
    list
}

/// Position of the first `c` in `v`.
pub fn find_first(v: &Vec<char>, c: char) -> (at: Option<usize>)
    ensures
        match at {
            Some(i) => v@.index_of_first(c) == Some(i as int),
            None => v@.index_of_first(c) is None,
        },
{
    proof {
        v@.index_of_first_ensures(c);
    }
    let mut i: usize = 0;
    while i < v.len()
        invariant
            i <= v@.len(),
            forall|j: int| 0 <= j < i ==> v@[j] != c,
            v@.index_of_first(c) is Some <==> v@.contains(c),
            match v@.index_of_first(c) {
                Some(k) => 0 <= k < v@.len() && v@[k] == c && forall|j: int|
                    0 <= j < k ==> v@[j] != c,
                None => true,
            },
        decreases v@.len() - i,
    {
        if v[i] == c {
            assert(v@.contains(c));
            return Some(i);
        }
        i += 1;
    }
    None
}

/// Position of the last `c` in `v`.
pub fn find_last(v: &Vec<char>, c: char) -> (at: Option<usize>)
    ensures
        match at {
            Some(i) => v@.index_of_last(c) == Some(i as int),
            None => v@.index_of_last(c) is None,
        },
{
    proof {
        v@.index_of_last_ensures(c);
    }
    let mut i: usize = v.len();
    while i > 0
        invariant
            i <= v@.len(),
            forall|j: int| i <= j < v@.len() ==> v@[j] != c,
            v@.index_of_last(c) is Some <==> v@.contains(c),
            match v@.index_of_last(c) {
                Some(k) => 0 <= k < v@.len() && v@[k] == c && forall|j: int|
                    k < j < v@.len() ==> v@[j] != c,
                None => true,
            },
        decreases i,
    {
        i -= 1;
        if v[i] == c {
            assert(v@.contains(c));
            return Some(i);
        }
    }
    None
}

/// Whether `part` occurs in `whole` as a run of consecutive characters.
pub open spec fn occurs_in(part: Seq<char>, whole: Seq<char>) -> bool {
    exists|at: int| occurs_at(part, whole, at)
}

/// Whether `part` stands in `whole` at position `at`.
pub open spec fn occurs_at(part: Seq<char>, whole: Seq<char>, at: int) -> bool {
    0 <= at && at + part.len() <= whole.len() && whole.subrange(at, at + part.len()) == part
}

fn stands_at(whole: &Vec<char>, part: &Vec<char>, at: usize) -> (yes: bool)
    requires
        at + part@.len() <= whole@.len(),
    ensures
        yes == occurs_at(part@, whole@, at as int),
{
    let size: usize = whole.len();
    let mut j: usize = 0;
    let ghost run = whole@.subrange(at as int, at + part@.len());
    while j < part.len()
        invariant
            at + part@.len() <= whole@.len(),
            size == whole@.len(),
            run == whole@.subrange(at as int, at + part@.len()),
            j <= part@.len(),
            forall|k: int| 0 <= k < j ==> run[k] == part@[k],
        decreases part@.len() - j,
    {
        let here: usize = at + j;
        assert(run[j as int] == whole@[here as int]);
        if whole[here] != part[j] {
            return false;
        }
        j += 1;
    }
    assert(run =~= part@);
    true
}

/// Whether `part` occurs in `whole`.
pub fn contains_text(whole: &str, part: &str) -> (found: bool)
    ensures
        found == occurs_in(part@, whole@),
{
    let w: Vec<char> = chars_of(whole);
    let p: Vec<char> = chars_of(part);
    if p.len() > w.len() {
        assert(forall|at: int| !occurs_at(part@, whole@, at));
        return false;
    }
    let last: usize = w.len() - p.len();
    let mut at: usize = 0;
    while at < last
        invariant
            at <= last,
            last + p@.len() == w@.len(),
            w@ == whole@,
            p@ == part@,
            forall|k: int| 0 <= k < at ==> !occurs_at(part@, whole@, k),
        decreases last - at,
    {
        if stands_at(&w, &p, at) {
            return true;
        }
        at += 1;
    }
    let found: bool = stands_at(&w, &p, last);
    proof {
        if !found {
            assert forall|k: int| !occurs_at(part@, whole@, k) by {}
        }
    }
    found
}
/// Whether `c` is white space: the characters with the Unicode property `White_Space`.
pub open spec fn is_space(c: char) -> bool {
    let u = c as u32;
    ||| 9 <= u <= 13
    ||| u == 0x20
    ||| u == 0x85
    ||| u == 0xA0
    ||| u == 0x1680
    ||| 0x2000 <= u <= 0x200A
    ||| u == 0x2028
    ||| u == 0x2029
    ||| u == 0x202F
    ||| u == 0x205F
    ||| u == 0x3000
}

fn space(c: char) -> (yes: bool)
    ensures
        yes == is_space(c),
{
    let u: u32 = c as u32;
    (9 <= u && u <= 13) || u == 0x20 || u == 0x85 || u == 0xA0 || u == 0x1680 || (0x2000 <= u && u
        <= 0x200A) || u == 0x2028 || u == 0x2029 || u == 0x202F || u == 0x205F || u == 0x3000
}

/// `s` without the white space at its start.
pub open spec fn trim_front(s: Seq<char>) -> Seq<char>
    decreases s.len(),
{
    if s.len() > 0 && is_space(s[0]) {
        trim_front(s.drop_first())
    } else {
        s
    }
}

/// `s` without the white space at its end.
pub open spec fn trim_back(s: Seq<char>) -> Seq<char>
    decreases s.len(),
{
    if s.len() > 0 && is_space(s.last()) {
        trim_back(s.drop_last())
    } else {
        s
    }
}

/// `s` without the white space around it.
pub open spec fn trimmed(s: Seq<char>) -> Seq<char> {
    trim_back(trim_front(s))
}

/// `s` without the white space around it.
pub fn trim(s: &str) -> (t: &str)
    ensures
        t@ == trimmed(s@),
{
    let v: Vec<char> = chars_of(s);
    let mut from: usize = 0;
    proof {
        assert(s@.skip(0) =~= s@);
    }
    while from < v.len() && space(v[from])
        invariant
            from <= v@.len(),
            v@ == s@,
            trim_front(s@) == trim_front(s@.skip(from as int)),
        decreases v@.len() - from,
    {
        assert(s@.skip(from as int).drop_first() =~= s@.skip(from + 1));
        from += 1;
    }
    let mut to: usize = v.len();
    proof {
        assert(trim_front(s@) == s@.skip(from as int));
        assert(s@.subrange(from as int, to as int) =~= s@.skip(from as int));
    }
    while to > from && space(v[to - 1])
        invariant
            from <= to <= v@.len(),
            v@ == s@,
            trim_back(s@.skip(from as int)) == trim_back(s@.subrange(from as int, to as int)),
        decreases to,
    {
        assert(s@.subrange(from as int, to as int).drop_last() =~= s@.subrange(
            from as int,
            to - 1,
        ));
        to -= 1;
    }
    s.substring_char(from, to)
}

/// The parts one after the other, with `sep` between neighbours.
pub open spec fn joined(parts: Seq<Seq<char>>, sep: Seq<char>) -> Seq<char>
    decreases parts.len(),
{
    if parts.len() == 0 {
        Seq::empty()
    } else if parts.len() == 1 {
        parts[0]
    } else {
        joined(parts.drop_last(), sep) + sep + parts.last()
    }
}

/// The parts one after the other, with `sep` between neighbours.
pub fn join(parts: &[String], sep: &str) -> (whole: String)
    ensures
        whole@ == joined(texts(parts@), sep@),
{
    let mut whole: String = String::new();
    let mut i: usize = 0;
    proof {
        assert(texts(parts@).take(0) =~= Seq::empty());
    }
    while i < parts.len()
        invariant
            i <= parts@.len(),
            whole@ == joined(texts(parts@).take(i as int), sep@),
        decreases parts@.len() - i,
    {
        let ghost before = texts(parts@).take(i as int);
        let ghost after = texts(parts@).take(i + 1);
        proof {
            assert(after.drop_last() =~= before);
            assert(after.last() == parts@[i as int]@);
        }
        if i > 0 {
            whole.append(sep);
            whole.append(parts[i].as_str());
        } else {
            whole.append(parts[i].as_str());
            assert(whole@ =~= parts@[0]@);
        }
        i += 1;
    }
    proof {
        assert(texts(parts@).take(parts@.len() as int) =~= texts(parts@));
    }
    whole
}

/// The decimal digit of `d`.
pub open spec fn digit(d: int) -> char {
    (48 + d) as char
}

/// The decimal numeral of `n`, without leading zeros.
pub open spec fn numeral(n: nat) -> Seq<char>
    decreases n,
{
    if n < 10 {
        seq![digit(n as int)]
    } else {
        numeral(n / 10).push(digit((n % 10) as int))
    }
}

fn digit_text(d: u64) -> (s: &'static str)
    requires
        d < 10,
    ensures
        s@ == seq![digit(d as int)],
{
    proof {
        reveal_strlit("0");
        reveal_strlit("1");
        reveal_strlit("2");
        reveal_strlit("3");
        reveal_strlit("4");
        reveal_strlit("5");
        reveal_strlit("6");
        reveal_strlit("7");
        reveal_strlit("8");
        reveal_strlit("9");
    }
    let s: &'static str = if d == 0 {
        "0"
    } else if d == 1 {
        "1"
    } else if d == 2 {
        "2"
    } else if d == 3 {
        "3"
    } else if d == 4 {
        "4"
    } else if d == 5 {
        "5"
    } else if d == 6 {
        "6"
    } else if d == 7 {
        "7"
    } else if d == 8 {
        "8"
    } else {
        "9"
    };
    assert(s@ =~= seq![digit(d as int)]);
    s
}

/// The decimal numeral of `n`.
pub fn decimal(n: u64) -> (s: String)
    ensures
        s@ == numeral(n as nat),
    decreases n,
{
    if n < 10 {
        digit_text(n).to_owned()
    } else {
        let front: String = decimal(n / 10);
        let s: String = front.concat(digit_text(n % 10));
        assert(s@ =~= numeral((n / 10) as nat).push(digit((n % 10) as int)));
        s
    }
}

/// Whether `c` is a decimal digit.
pub open spec fn is_digit(c: char) -> bool {
    '0' <= c <= '9'
}

/// Whether `s` consists of decimal digits.
pub open spec fn all_digits(s: Seq<char>) -> bool {
    forall|i: int| 0 <= i < s.len() ==> is_digit(#[trigger] s[i])
}

/// The number that a row of decimal digits stands for.
pub open spec fn number(s: Seq<char>) -> nat
    decreases s.len(),
{
    if s.len() == 0 {
        0
    } else {
        (number(s.drop_last()) * 10 + (s.last() as u32 - 48)) as nat
    }
}

/// A number up to 65535 as it may be written: decimal digits, with or without a plus sign.
pub open spec fn port_number(s: Seq<char>) -> Option<u16> {
    let digits = if s.len() > 0 && s[0] == '+' {
        s.skip(1)
    } else {
        s
    };
    if digits.len() > 0 && all_digits(digits) && number(digits) <= 65535 {
        Some(number(digits) as u16)
    } else {
        None
    }
}

/// Reads a number up to 65535: decimal digits, with or without a plus sign.
pub fn parse_port(s: &str) -> (port: Option<u16>)
    ensures
        port == port_number(s@),
{
    let v: Vec<char> = chars_of(s);
    let from: usize = if v.len() > 0 && v[0] == '+' {
        1
    } else {
        0
    };
    let ghost digits = if s@.len() > 0 && s@[0] == '+' {
        s@.skip(1)
    } else {
        s@
    };
    proof {
        assert(s@.skip(0) =~= s@);
    }
    if from == v.len() {
        return None;
    }
    let mut value: u32 = 0;
    let mut fits: bool = true;
    let mut i: usize = from;
    proof {
        assert(digits.take(0) =~= Seq::empty());
    }
    while i < v.len()
        invariant
            from <= i <= v@.len(),
            v@ == s@,
            digits == s@.skip(from as int),
            digits == if s@.len() > 0 && s@[0] == '+' {
                s@.skip(1)
            } else {
                s@
            },
            digits.len() > 0,
            all_digits(digits.take(i - from)),
            fits ==> value == number(digits.take(i - from)) && value <= 65535,
            !fits ==> number(digits.take(i - from)) > 65535,
        decreases v@.len() - i,
    {
        let c: char = v[i];
        let ghost now = digits.take(i - from);
        let ghost next = digits.take(i + 1 - from);
        proof {
            assert(next.drop_last() =~= now);
            assert(next.last() == c);
        }
        if c < '0' || c > '9' {
            assert(!is_digit(digits[i - from]));
            return None;
        }
        proof {
            assert(next =~= now.push(c));
        }
        if fits {
            value = value * 10 + (c as u32 - 48);
            if value > 65535 {
                fits = false;
            }
        }
        i += 1;
    }
    proof {
        assert(digits.take(v@.len() - from) =~= digits);
    }
    if fits {
        Some(value as u16)
    } else {
        None
    }
}

/// The order of texts: by the first character in which they differ; a text comes before every
/// longer text that it starts.
pub open spec fn text_before(a: Seq<char>, b: Seq<char>) -> bool
    decreases a.len(),
{
    if b.len() == 0 {
        false
    } else if a.len() == 0 {
        true
    } else {
        a[0] < b[0] || (a[0] == b[0] && text_before(
            a.drop_first(),
            b.drop_first(),
        ))
    }
}

/// Whether `a` comes before `b` in the order of texts.
pub fn goes_before(a: &str, b: &str) -> (yes: bool)
    ensures
        yes == text_before(a@, b@),
{
    let x: Vec<char> = chars_of(a);
    let y: Vec<char> = chars_of(b);
    let mut i: usize = 0;
    proof {
        assert(a@.skip(0) =~= a@);
        assert(b@.skip(0) =~= b@);
    }
    while i < x.len() && i < y.len()
        invariant
            i <= x@.len(),
            i <= y@.len(),
            x@ == a@,
            y@ == b@,
            text_before(a@, b@) == text_before(a@.skip(i as int), b@.skip(i as int)),
        decreases x@.len() - i,
    {
        proof {
            assert(a@.skip(i as int).drop_first() =~= a@.skip(i + 1));
            assert(b@.skip(i as int).drop_first() =~= b@.skip(i + 1));
        }
        let p: char = x[i];
        let q: char = y[i];
        if p < q {
            return true;
        }
        if p > q {
            return false;
        }
        i += 1;
    }
    i < y.len()
}

/// Two different texts are in order one way or the other, never both.
pub proof fn lemma_text_order_total(a: Seq<char>, b: Seq<char>)
    ensures
        !(text_before(a, b) && text_before(b, a)),
        a != b ==> text_before(a, b) || text_before(b, a),
        a == b ==> !text_before(a, b),
    decreases a.len(),
{
    if a.len() > 0 && b.len() > 0 {
        lemma_text_order_total(a.drop_first(), b.drop_first());
        if a[0] == b[0] && a.drop_first() == b.drop_first() {
            assert(a =~= seq![a[0]] + a.drop_first());
            assert(b =~= seq![b[0]] + b.drop_first());
        }
    } else if a.len() == 0 && b.len() == 0 {
        assert(a =~= b);
    }
}

/// The order of texts is transitive.
pub proof fn lemma_text_order_transitive(a: Seq<char>, b: Seq<char>, c: Seq<char>)
    requires
        text_before(a, b),
        text_before(b, c),
    ensures
        text_before(a, c),
    decreases a.len(),
{
    if a.len() > 0 && b.len() > 0 && c.len() > 0 && a[0] == b[0] && b[0] == c[0] {
        lemma_text_order_transitive(a.drop_first(), b.drop_first(), c.drop_first());
    }
}

/// What stands before, between and after the occurrences of `c`.
pub open spec fn split_at_each(s: Seq<char>, c: char) -> Seq<Seq<char>>
    decreases s.len(),
{
    match s.index_of_first(c) {
        Some(i) => if 0 <= i < s.len() {
            seq![s.take(i)] + split_at_each(s.skip(i + 1), c)
        } else {
            seq![s]
        },
        None => seq![s],
    }
}

/// What stands before, between and after the occurrences of `c`.
pub fn split(s: &str, c: char) -> (list: Vec<&str>)
    ensures
        slices(list@) == split_at_each(s@, c),
{
    let v: Vec<char> = chars_of(s);
    let mut list: Vec<&str> = Vec::new();
    let mut from: usize = 0;
    proof {
        assert(s@.skip(0) =~= s@);
        assert(slices(list@) + split_at_each(s@, c) =~= split_at_each(s@, c));
    }
    loop
        invariant
            from <= v@.len(),
            v@ == s@,
            slices(list@) + split_at_each(s@.skip(from as int), c) == split_at_each(s@, c),
        decreases v@.len() - from,
    {
        let mut at: usize = from;
        while at < v.len() && v[at] != c
            invariant
                from <= at <= v@.len(),
                v@ == s@,
                forall|k: int| from <= k < at ==> s@[k] != c,
            decreases v@.len() - at,
        {
            at += 1;
        }
        let piece: &str = s.substring_char(from, at);
        let ghost before = slices(list@);
        let ghost rest = s@.skip(from as int);
        list.push(piece);
        proof {
            lemma_first_from(s@, c, from as int, at as int);
            assert(slices(list@) =~= before.push(piece@));
        }
        if at == v.len() {
            proof {
                assert(piece@ =~= rest);
                assert(before + seq![rest] =~= before.push(piece@));
            }
            return list;
        }
        proof {
            assert(rest.take(at - from) =~= piece@);
            assert(rest.skip(at - from + 1) =~= s@.skip(at + 1));
            assert(before + (seq![piece@] + split_at_each(s@.skip(at + 1), c)) =~= before.push(
                piece@,
            ) + split_at_each(s@.skip(at + 1), c));
        }
        from = at + 1;
    }
}

/// One line without the carriage return that may end it.
pub open spec fn without_return(line: Seq<char>) -> Seq<char> {
    if line.len() > 0 && line.last() == '\r' {
        line.drop_last()
    } else {
        line
    }
}

/// The lines of a text: what stands before each line feed, and what follows the last one unless
/// that is empty.
pub open spec fn lines_of(s: Seq<char>) -> Seq<Seq<char>>
    decreases s.len(),
{
    if s.len() == 0 {
        Seq::empty()
    } else {
        match s.index_of_first('\n') {
            Some(i) => if 0 <= i < s.len() {
                seq![without_return(s.take(i))] + lines_of(s.skip(i + 1))
            } else {
                Seq::empty()
            },
            None => seq![s],
        }
    }
}

proof fn lemma_first_from(s: Seq<char>, c: char, from: int, at: int)
    requires
        0 <= from <= at <= s.len(),
        forall|k: int| from <= k < at ==> s[k] != c,
        at < s.len() ==> s[at] == c,
    ensures
        at < s.len() ==> s.skip(from).index_of_first(c) == Some(at - from),
        at == s.len() ==> s.skip(from).index_of_first(c) is None,
{
    let rest = s.skip(from);
    rest.index_of_first_ensures(c);
    if at < s.len() {
        assert(rest[at - from] == c);
        assert(rest.contains(c));
        let k = rest.index_of_first(c).unwrap();
        if k < at - from {
            assert(rest[k] == s[from + k]);
        }
    } else {
        if rest.contains(c) {
            let k = rest.index_of_first(c).unwrap();
            assert(rest[k] == s[from + k]);
        }
    }
}

/// The lines of a text.
pub fn lines(s: &str) -> (list: Vec<&str>)
    ensures
        slices(list@) == lines_of(s@),
{
    let v: Vec<char> = chars_of(s);
    let mut list: Vec<&str> = Vec::new();
    let mut from: usize = 0;
    proof {
        assert(s@.skip(0) =~= s@);
        assert(slices(list@) + lines_of(s@) =~= lines_of(s@));
    }
    while from < v.len()
        invariant
            from <= v@.len(),
            v@ == s@,
            slices(list@) + lines_of(s@.skip(from as int)) == lines_of(s@),
        decreases v@.len() - from,
    {
        let mut at: usize = from;
        while at < v.len() && v[at] != '\n'
            invariant
                from <= at <= v@.len(),
                v@ == s@,
                forall|k: int| from <= k < at ==> s@[k] != '\n',
            decreases v@.len() - at,
        {
            at += 1;
        }
        proof {
            lemma_first_from(s@, '\n', from as int, at as int);
        }
        let ghost before = slices(list@);
        let ghost rest = s@.skip(from as int);
        if at == v.len() {
            let line: &str = s.substring_char(from, at);
            list.push(line);
            proof {
                assert(line@ =~= rest);
                assert(slices(list@) =~= before.push(line@));
                assert(before + seq![rest] =~= before.push(line@));
                assert(slices(list@) + lines_of(Seq::<char>::empty()) =~= slices(list@));
                assert(s@.skip(at as int) =~= Seq::<char>::empty());
            }
            from = at;
        } else {
            let end: usize = if at > from && v[at - 1] == '\r' {
                at - 1
            } else {
                at
            };
            let line: &str = s.substring_char(from, end);
            list.push(line);
            proof {
                assert(rest.take(at - from) =~= s@.subrange(from as int, at as int));
                assert(line@ =~= without_return(rest.take(at - from)));
                assert(rest.skip(at - from + 1) =~= s@.skip(at + 1));
                assert(slices(list@) =~= before.push(line@));
                assert(before + (seq![line@] + lines_of(s@.skip(at + 1))) =~= before.push(line@)
                    + lines_of(s@.skip(at + 1)));
            }
            from = at + 1;
        }
    }
    proof {
        assert(s@.skip(from as int) =~= Seq::<char>::empty());
        assert(slices(list@) + lines_of(Seq::<char>::empty()) =~= slices(list@));
    }
    list
}

} // verus!
