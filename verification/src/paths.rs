//! Structured JSON paths: the atomic path part (a named key or a numeric
//! index), ordered sequences of parts, their textual rendering, and the
//! parser for the dotted/bracketed path syntax (`a.b[2].c`).

use vstd::prelude::*;
use vstd::string::StrSliceExecFns;
use vstd::string::StringExecFns;

verus! {

/// Ghost mirror of [`JsonPathPart`]: a key as a sequence of characters or an
/// index as an unbounded integer.
pub enum PathPartV {
    Key(Seq<char>),
    Index(int),
}

/// The atomic unit of a JSON-flavored address: either a key into an object
/// or an index into an array.
#[derive(Debug, PartialEq, Eq)]
pub enum JsonPathPart {
    Key(String),
    Index(usize),
}

impl View for JsonPathPart {
    type V = PathPartV;

    open spec fn view(&self) -> PathPartV {
        match self {
            JsonPathPart::Key(s) => PathPartV::Key(s@),
            JsonPathPart::Index(i) => PathPartV::Index(*i as int),
        }
    }
}

impl Clone for JsonPathPart {
    fn clone(&self) -> (res: Self)
        ensures
            res == *self,
    {
        match self {
            JsonPathPart::Key(s) => JsonPathPart::Key(s.clone()),
            JsonPathPart::Index(i) => JsonPathPart::Index(*i),
        }
    }
}

/// The character standing for a single decimal digit value.
pub open spec fn digit_char(d: int) -> char {
    if d == 0 {
        '0'
    } else if d == 1 {
        '1'
    } else if d == 2 {
        '2'
    } else if d == 3 {
        '3'
    } else if d == 4 {
        '4'
    } else if d == 5 {
        '5'
    } else if d == 6 {
        '6'
    } else if d == 7 {
        '7'
    } else if d == 8 {
        '8'
    } else {
        '9'
    }
}

/// The usual decimal rendering of a natural number, most significant digit
/// first, with no leading zeros (except for the number zero itself).
pub open spec fn decimal_chars(n: nat) -> Seq<char>
    decreases n,
{
    if n < 10 {
        seq![digit_char(n as int)]
    } else {
        decimal_chars(n / 10).push(digit_char((n % 10) as int))
    }
}

/// A one-character string slice holding the decimal digit `d`.
fn digit_str(d: usize) -> (r: &'static str)
    requires
        d < 10,
    ensures
        r@ =~= seq![digit_char(d as int)],
{
    let digits: &'static str = "0123456789";
    proof {
        reveal_strlit("0123456789");
    }
    digits.substring_char(d, d + 1)
}

/// Renders a machine integer in decimal.
pub fn usize_to_string(n: usize) -> (r: String)
    ensures
        r@ == decimal_chars(n as nat),
{
    if n == 0 {
        let mut z: String = String::new();
        z.append(digit_str(0));
        proof {
            assert(z@ =~= decimal_chars(0));
        }
        return z;
    }
    let mut digits: Vec<usize> = Vec::new();
    let mut m: usize = n;
    while m > 0
        invariant
            forall|k: int| 0 <= k < digits@.len() ==> 0 <= #[trigger] digits@[k] < 10,
            decimal_chars(n as nat) =~= if m > 0 {
                decimal_chars(m as nat) + rev_digit_chars(digits@)
            } else {
                rev_digit_chars(digits@)
            },
        decreases m,
    {
        let d: usize = m % 10;
        let m2: usize = m / 10;
        digits.push(d);
        proof {
            assert(rev_digit_chars(digits@) =~= seq![digit_char(d as int)] + rev_digit_chars(
                digits@.drop_last(),
            ));
            if m2 > 0 {
                assert(decimal_chars(m as nat) == decimal_chars(m2 as nat).push(
                    digit_char(d as int),
                ));
                assert(decimal_chars(m2 as nat) + rev_digit_chars(digits@) =~= decimal_chars(
                    m as nat,
                ) + rev_digit_chars(digits@.drop_last()));
            } else {
                assert(decimal_chars(m as nat) =~= seq![digit_char(d as int)]);
                assert(rev_digit_chars(digits@) =~= decimal_chars(m as nat) + rev_digit_chars(
                    digits@.drop_last(),
                ));
            }
        }
        m = m2;
    }
    let mut r: String = String::new();
    let mut i: usize = digits.len();
    while i > 0
        invariant
            i <= digits@.len(),
            forall|k: int| 0 <= k < digits@.len() ==> 0 <= #[trigger] digits@[k] < 10,
            r@ =~= rev_digit_chars(digits@).take(digits@.len() - i),
        decreases i,
    {
        i = i - 1;
        let ghost prev = r@;
        r.append(digit_str(digits[i]));
        proof {
            assert(r@ =~= rev_digit_chars(digits@).take(digits@.len() - i));
        }
    }
    proof {
        assert(r@ =~= rev_digit_chars(digits@));
    }
    r
}

/// The digit characters of `digits`, read back to front (`digits` stores the
/// least significant digit first).
pub open spec fn rev_digit_chars(digits: Seq<usize>) -> Seq<char> {
    Seq::new(digits.len(), |i: int| digit_char(digits[digits.len() - 1 - i] as int))
}

/// The textual rendering of one path part: `.key` for a key, `[i]` for an
/// index.
pub open spec fn part_render(p: PathPartV) -> Seq<char> {
    match p {
        PathPartV::Key(s) => seq!['.'] + s,
        PathPartV::Index(i) => seq!['['] + decimal_chars(i as nat) + seq![']'],
    }
}

/// The renderings of all parts, concatenated in order.
pub open spec fn concat_renders(parts: Seq<PathPartV>) -> Seq<char>
    decreases parts.len(),
{
    if parts.len() == 0 {
        Seq::empty()
    } else {
        part_render(parts[0]) + concat_renders(parts.drop_first())
    }
}

/// `s` with every leading `'.'` removed.
pub open spec fn trim_dots(s: Seq<char>) -> Seq<char>
    decreases s.len(),
{
    if s.len() > 0 && s[0] == '.' {
        trim_dots(s.drop_first())
    } else {
        s
    }
}

/// The rendering of a whole path: the concatenated part renderings with the
/// leading dots trimmed, so `[Key(a), Index(2)]` renders as `a[2]`.
pub open spec fn path_render(parts: Seq<PathPartV>) -> Seq<char> {
    trim_dots(concat_renders(parts))
}

proof fn lemma_concat_renders_push(parts: Seq<PathPartV>, p: PathPartV)
    ensures
        concat_renders(parts.push(p)) =~= concat_renders(parts) + part_render(p),
    decreases parts.len(),
{
    if parts.len() == 0 {
        assert(parts.push(p)[0] == p);
        assert(parts.push(p).drop_first() =~= Seq::<PathPartV>::empty());
        assert(concat_renders(parts.push(p)) == part_render(p) + concat_renders(
            Seq::<PathPartV>::empty(),
        ));
        assert(concat_renders(parts.push(p)) =~= concat_renders(parts) + part_render(p));
    } else {
        assert(parts.push(p)[0] == parts[0]);
        assert(parts.push(p).drop_first() =~= parts.drop_first().push(p));
        lemma_concat_renders_push(parts.drop_first(), p);
        assert(concat_renders(parts.push(p)) == part_render(parts[0]) + (concat_renders(
            parts.drop_first(),
        ) + part_render(p)));
    }
}

impl JsonPathPart {
    /// The addressable name of this part alone, without punctuation: the key
    /// itself, or the index in decimal.
    pub fn to_key(&self) -> (r: String)
        ensures
            r@ == match self@ {
                PathPartV::Key(s) => s,
                PathPartV::Index(i) => decimal_chars(i as nat),
            },
    {
        match self {
            JsonPathPart::Key(key) => key.clone(),
            JsonPathPart::Index(ix) => usize_to_string(*ix),
        }
    }

    /// The punctuated rendering of this part: `.key` or `[i]`.
    pub fn render(&self) -> (r: String)
        ensures
            r@ == part_render(self@),
    {
        proof {
            reveal_strlit(".");
            reveal_strlit("[");
            reveal_strlit("]");
        }
        match self {
            JsonPathPart::Key(key) => {
                let mut r: String = String::new();
                r.append(".");
                r.append(key.as_str());
                proof {
                    assert(r@ =~= part_render(self@));
                }
                r
            },
            JsonPathPart::Index(ix) => {
                let mut r: String = String::new();
                r.append("[");
                let digits: String = usize_to_string(*ix);
                r.append(digits.as_str());
                r.append("]");
                proof {
                    assert(r@ =~= part_render(self@));
                }
                r
            },
        }
    }
}

/// A structured JSON path: an ordered sequence of [`JsonPathPart`]s, created
/// by parsing or explicit composition and never mutated afterwards.
#[derive(Debug, PartialEq, Eq)]
pub struct JsonPath(pub Vec<JsonPathPart>);

impl View for JsonPath {
    type V = Seq<PathPartV>;

    open spec fn view(&self) -> Seq<PathPartV> {
        Seq::new(self.0@.len(), |i: int| self.0@[i]@)
    }
}

impl Clone for JsonPath {
    fn clone(&self) -> (res: Self)
        ensures
            res@ == self@,
    {
        let mut parts: Vec<JsonPathPart> = Vec::new();
        let mut i: usize = 0;
        while i < self.0.len()
            invariant
                i <= self.0@.len(),
                parts@.len() == i as int,
                forall|k: int| 0 <= k < i as int ==> parts@[k] == self.0@[k],
            decreases self.0@.len() - i,
    {
            parts.push(self.0[i].clone());
            i = i + 1;
        }
        let res = JsonPath(parts);
        proof {
            assert(res@ =~= self@);
        }
        res
    }
}

impl JsonPath {
    /// The empty path, addressing the root of the value tree.
    pub fn root() -> (r: Self)
        ensures
            r@ =~= Seq::<PathPartV>::empty(),
    {
        JsonPath(Vec::new())
    }

    /// The last part of the path, consuming it; `None` for the root path.
    pub fn last(self) -> (r: Option<JsonPathPart>)
        ensures
            match r {
                Some(p) => self@.len() > 0 && p@ == self@.last(),
                None => self@.len() == 0,
            },
    {
        let mut parts: Vec<JsonPathPart> = self.0;
        parts.pop()
    }

    /// The path extended by one further part.
    pub fn sub_part(self, part: JsonPathPart) -> (r: Self)
        ensures
            r@ =~= self@.push(part@),
    {
        let mut parts: Vec<JsonPathPart> = self.0;
        parts.push(part);
        let r = JsonPath(parts);
        proof {
            assert(r@ =~= self@.push(part@));
        }
        r
    }

    /// The path extended by all parts of another path, in order.
    pub fn sub_path(self, rhs: JsonPath) -> (r: Self)
        ensures
            r@ =~= self@ + rhs@,
    {
        let ghost orig = self@;
        let mut parts: Vec<JsonPathPart> = self.0;
        let mut more: Vec<JsonPathPart> = rhs.0;
        let mut i: usize = 0;
        let n: usize = more.len();
        while i < n
            invariant
                i <= n,
                n as int == more@.len(),
                parts@.len() == orig.len() + i as int,
                forall|k: int| 0 <= k < orig.len() ==> #[trigger] parts@[k]@ == orig[k],
                forall|k: int|
                    orig.len() <= k < orig.len() + i as int ==> #[trigger] parts@[k] == more@[k
                        - orig.len()],
            decreases n - i,
    {
            let p: JsonPathPart = more[i].clone();
            parts.push(p);
            i = i + 1;
        }
        let r = JsonPath(parts);
        proof {
            assert(r@ =~= orig + rhs@);
        }
        r
    }

    /// The rendering of the whole path, with leading dots trimmed:
    /// `a.b[2].c`.
    pub fn render(&self) -> (r: String)
        ensures
            r@ == path_render(self@),
    {
        let mut joined: String = String::new();
        let mut i: usize = 0;
        while i < self.0.len()
            invariant
                i <= self.0@.len(),
                joined@ =~= concat_renders(self@.take(i as int)),
            decreases self.0@.len() - i,
    {
            let part: String = self.0[i].render();
            joined.append(part.as_str());
            proof {
                assert(self@.take(i + 1 as int) =~= self@.take(i as int).push(self@[i as int]));
                lemma_concat_renders_push(self@.take(i as int), self@[i as int]);
            }
            i = i + 1;
        }
        proof {
            assert(self@.take(self.0@.len() as int) =~= self@);
        }
        let n: usize = joined.as_str().unicode_len();
        let mut start: usize = 0;
        proof {
            assert(joined@.skip(0) =~= joined@);
        }
        while start < n && joined.as_str().get_char(start) == '.'
            invariant
                start <= n,
                n as int == joined@.len(),
                trim_dots(joined@) == trim_dots(joined@.skip(start as int)),
            decreases n - start,
    {
            proof {
                assert(joined@.skip(start as int)[0] == joined@[start as int]);
                assert(joined@.skip(start as int).drop_first() =~= joined@.skip(start + 1 as int));
            }
            start = start + 1;
        }
        proof {
            if start < n {
                assert(joined@.skip(start as int)[0] == joined@[start as int]);
            } else {
                assert(joined@.skip(start as int) =~= Seq::<char>::empty());
            }
            assert(trim_dots(joined@.skip(start as int)) == joined@.skip(start as int));
        }
        joined.as_str().substring_char(start, n).to_owned()
    }
}

/// Error raised when a path string does not follow the
/// `segment ('.' segment)*` grammar; carries a human-readable message.
#[derive(Debug, PartialEq, Eq)]
pub struct JsonPathParseError(pub String);

impl View for JsonPathParseError {
    type V = Seq<char>;

    open spec fn view(&self) -> Seq<char> {
        self.0@
    }
}

pub open spec fn is_digit(c: char) -> bool {
    '0' <= c && c <= '9'
}

pub open spec fn digit_val(c: char) -> int {
    c as int - '0' as int
}

/// The numeric value of a digit string, most significant digit first.
pub open spec fn digits_val(s: Seq<char>) -> int
    decreases s.len(),
{
    if s.len() == 0 {
        0
    } else {
        digits_val(s.drop_last()) * 10 + digit_val(s.last())
    }
}

pub open spec fn all_digits(s: Seq<char>) -> bool {
    forall|i: int| 0 <= i < s.len() ==> is_digit(#[trigger] s[i])
}

/// The index of the last `'['` in `s`, or `-1` if there is none.
pub open spec fn last_open_bracket(s: Seq<char>) -> int
    decreases s.len(),
{
    if s.len() == 0 {
        -1
    } else if s.last() == '[' {
        s.len() - 1
    } else {
        last_open_bracket(s.drop_last())
    }
}

pub proof fn lemma_last_open_bracket(s: Seq<char>)
    ensures
        -1 <= last_open_bracket(s) < s.len(),
        last_open_bracket(s) >= 0 ==> s[last_open_bracket(s)] == '[',
        forall|k: int| last_open_bracket(s) < k < s.len() ==> s[k] != '[',
    decreases s.len(),
{
    if s.len() > 0 && s.last() != '[' {
        lemma_last_open_bracket(s.drop_last());
        assert(forall|k: int|
            last_open_bracket(s) < k < s.len() - 1 ==> s[k] == s.drop_last()[k] && s[k] != '[');
    }
}

/// The index of the first `'.'` in `s`, or `-1` if there is none.
pub open spec fn first_dot(s: Seq<char>) -> int
    decreases s.len(),
{
    if s.len() == 0 {
        -1
    } else if s[0] == '.' {
        0
    } else if first_dot(s.drop_first()) < 0 {
        -1
    } else {
        1 + first_dot(s.drop_first())
    }
}

pub proof fn lemma_first_dot(s: Seq<char>)
    ensures
        -1 <= first_dot(s) < s.len(),
        first_dot(s) >= 0 ==> s[first_dot(s)] == '.',
        forall|k: int| 0 <= k < first_dot(s) ==> s[k] != '.',
        first_dot(s) < 0 ==> forall|k: int| 0 <= k < s.len() ==> s[k] != '.',
    decreases s.len(),
{
    if s.len() > 0 && s[0] != '.' {
        lemma_first_dot(s.drop_first());
        assert(forall|k: int| 1 <= k < s.len() ==> s[k] == s.drop_first()[k - 1]);
    }
}

/// One dot-separated chunk, parsed back to front: trailing `[digits]`
/// groups are stripped into `Index` parts collected in `acc` (rightmost
/// first), any remaining prefix becomes a `Key` part, and the parts come out
/// reversed, i.e. in left-to-right order.
pub open spec fn parse_chunk(chars: Seq<char>, acc: Seq<PathPartV>) -> Result<
    Seq<PathPartV>,
    Seq<char>,
>
    decreases chars.len(),
    via parse_chunk_decreases
{
    if chars.len() > 0 && chars.last() == ']' {
        let body = chars.drop_last();
        let j = last_open_bracket(body);
        if j < 0 {
            Err("mismatched ]"@)
        } else {
            let digits = body.skip(j + 1);
            if digits.len() > 0 && all_digits(digits) && digits_val(digits) <= usize::MAX as int {
                parse_chunk(body.take(j), acc.push(PathPartV::Index(digits_val(digits))))
            } else {
                Err("error parsing index"@)
            }
        }
    } else if chars.len() == 0 {
        Ok(acc.reverse())
    } else {
        Ok(acc.push(PathPartV::Key(chars)).reverse())
    }
}

#[via_fn]
proof fn parse_chunk_decreases(chars: Seq<char>, acc: Seq<PathPartV>) {
    if chars.len() > 0 && chars.last() == ']' {
        lemma_last_open_bracket(chars.drop_last());
    }
}

/// A whole path string: chunks split on `'.'`, each parsed by
/// [`parse_chunk`], their parts concatenated in order; the leftmost
/// malformed chunk decides the error.
pub open spec fn parse_path(s: Seq<char>) -> Result<Seq<PathPartV>, Seq<char>>
    decreases s.len(),
    via parse_path_decreases
{
    let d = first_dot(s);
    if d < 0 {
        parse_chunk(s, Seq::empty())
    } else {
        match parse_chunk(s.take(d), Seq::empty()) {
            Ok(parts) => match parse_path(s.skip(d + 1)) {
                Ok(rest) => Ok(parts + rest),
                Err(e) => Err(e),
            },
            Err(e) => Err(e),
        }
    }
}

#[via_fn]
proof fn parse_path_decreases(s: Seq<char>) {
    lemma_first_dot(s);
}

pub proof fn lemma_digits_val_nonneg(s: Seq<char>)
    requires
        all_digits(s),
    ensures
        digits_val(s) >= 0,
    decreases s.len(),
{
    if s.len() > 0 {
        assert(forall|i: int| 0 <= i < s.len() - 1 ==> s.drop_last()[i] == s[i]);
        lemma_digits_val_nonneg(s.drop_last());
        assert(is_digit(s.last()));
    }
}

pub proof fn lemma_digits_val_prefix_le(s: Seq<char>, k: int)
    requires
        all_digits(s),
        0 <= k <= s.len(),
    ensures
        digits_val(s.take(k)) <= digits_val(s),
    decreases s.len(),
{
    if k == s.len() {
        assert(s.take(k) =~= s);
    } else {
        assert(forall|i: int| 0 <= i < s.len() - 1 ==> s.drop_last()[i] == s[i]);
        lemma_digits_val_nonneg(s.drop_last());
        assert(is_digit(s.last()));
        assert(s.drop_last().take(k) =~= s.take(k));
        lemma_digits_val_prefix_le(s.drop_last(), k);
    }
}

/// Parses the digit run `s[from..to)` as a machine integer; rejects an
/// empty run, a non-digit, and a value that does not fit.
#[verifier::loop_isolation(false)]
fn parse_index_digits(s: &str, from: usize, to: usize) -> (r: Option<usize>)
    requires
        from <= to <= s@.len(),
    ensures
        ({
            let d = s@.subrange(from as int, to as int);
            match r {
                Some(v) => d.len() > 0 && all_digits(d) && digits_val(d) == v as int,
                None => !(d.len() > 0 && all_digits(d) && digits_val(d) <= usize::MAX as int),
            }
        }),
{
    let ghost d = s@.subrange(from as int, to as int);
    if from == to {
        return None;
    }
    let mut acc: usize = 0;
    let mut i: usize = from;
    while i < to
        invariant
            from <= i <= to <= s@.len(),
            all_digits(d.take(i - from)),
            acc as int == digits_val(d.take(i - from)),
        decreases to - i,
    {
        let c: char = s.get_char(i);
        if !(c >= '0' && c <= '9') {
            proof {
                assert(d[i - from] == c);
                assert(!is_digit(d[i - from]));
            }
            return None;
        }
        let dv: usize = (c as usize) - 48;
        let acc10: Option<usize> = acc.checked_mul(10);
        proof {
            assert(d.take(i - from + 1).drop_last() =~= d.take(i - from));
            assert(d.take(i - from + 1).last() == d[i - from]);
            assert(d[i - from] == c);
        }
        match acc10 {
            None => {
                proof {
                    assert(digits_val(d.take(i - from + 1)) > usize::MAX as int);
                    if all_digits(d) {
                        lemma_digits_val_prefix_le(d, i - from + 1);
                        assert(digits_val(d) > usize::MAX as int);
                    }
                }
                return None;
            },
            Some(a10) => {
                match a10.checked_add(dv) {
                    None => {
                        proof {
                            assert(digits_val(d.take(i - from + 1)) > usize::MAX as int);
                            if all_digits(d) {
                                lemma_digits_val_prefix_le(d, i - from + 1);
                                assert(digits_val(d) > usize::MAX as int);
                            }
                        }
                        return None;
                    },
                    Some(a) => {
                        acc = a;
                    },
                }
            },
        }
        i = i + 1;
    }
    proof {
        assert(d.take(to - from) =~= d);
    }
    Some(acc)
}

/// The last `'['` in `s[start..end)`, scanning backwards, as an absolute
/// position.
#[verifier::loop_isolation(false)]
fn find_open_bracket_back(s: &str, start: usize, end: usize) -> (r: Option<usize>)
    requires
        start <= end <= s@.len(),
    ensures
        ({
            let body = s@.subrange(start as int, end as int);
            match r {
                Some(j) => start <= j < end && last_open_bracket(body) == j - start,
                None => last_open_bracket(body) == -1,
            }
        }),
{
    let ghost body = s@.subrange(start as int, end as int);
    let mut k: usize = end;
    while k > start
        invariant
            start <= k <= end <= s@.len(),
            forall|mi: int| k - start <= mi < end - start ==> #[trigger] body[mi] != '[',
        decreases k,
    {
        k = k - 1;
        let c: char = s.get_char(k);
        proof {
            assert(body[k - start as int] == s@[k as int]);
        }
        if c == '[' {
            proof {
                lemma_last_open_bracket(body);
            }
            return Some(k);
        }
    }
    proof {
        lemma_last_open_bracket(body);
    }
    None
}

/// Parses one dot-free chunk `s[start..end)` into parts, mirroring the
/// back-to-front stripping of `[digits]` groups.
#[verifier::loop_isolation(false)]
fn parse_chunk_str(s: &str, start: usize, end: usize) -> (r: Result<
    Vec<JsonPathPart>,
    JsonPathParseError,
>)
    requires
        start <= end <= s@.len(),
    ensures
        ({
            let spec_r = parse_chunk(s@.subrange(start as int, end as int), Seq::empty());
            match r {
                Ok(v) => spec_r == Ok::<_, Seq<char>>(
                    Seq::new(v@.len(), |i: int| v@[i]@),
                ),
                Err(e) => spec_r == Err::<Seq<PathPartV>, _>(e@),
            }
        }),
{
    let ghost whole = s@.subrange(start as int, end as int);
    let mut rev_parts: Vec<JsonPathPart> = Vec::new();
    proof {
        assert(Seq::new(rev_parts@.len(), |i: int| rev_parts@[i]@) =~= Seq::<
            PathPartV,
        >::empty());
    }
    let mut cur_end: usize = end;
    while cur_end > start && s.get_char(cur_end - 1) == ']'
        invariant
            start <= cur_end <= end <= s@.len(),
            parse_chunk(whole, Seq::empty()) == parse_chunk(
                s@.subrange(start as int, cur_end as int),
                Seq::new(rev_parts@.len(), |i: int| rev_parts@[i]@),
            ),
        decreases cur_end,
    {
        let ghost chars = s@.subrange(start as int, cur_end as int);
        let ghost acc = Seq::new(rev_parts@.len(), |i: int| rev_parts@[i]@);
        proof {
            assert(chars.last() == s@[cur_end - 1]);
            assert(chars.drop_last() =~= s@.subrange(start as int, cur_end - 1));
        }
        let jo: Option<usize> = find_open_bracket_back(s, start, cur_end - 1);
        match jo {
            None => {
                return Err(JsonPathParseError("mismatched ]".to_owned()));
            },
            Some(j) => {
                let ghost body = s@.subrange(start as int, cur_end - 1);
                let vo: Option<usize> = parse_index_digits(s, j + 1, cur_end - 1);
                proof {
                    assert(body.skip(j + 1 - start) =~= s@.subrange(j + 1, cur_end - 1));
                }
                match vo {
                    None => {
                        return Err(JsonPathParseError("error parsing index".to_owned()));
                    },
                    Some(v) => {
                        rev_parts.push(JsonPathPart::Index(v));
                        proof {
                            assert(body.take(j - start) =~= s@.subrange(start as int, j as int));
                            assert(Seq::new(rev_parts@.len(), |i: int| rev_parts@[i]@)
                                =~= acc.push(PathPartV::Index(v as int)));
                        }
                        cur_end = j;
                    },
                }
            },
        }
    }
    let ghost chars = s@.subrange(start as int, cur_end as int);
    let ghost acc = Seq::new(rev_parts@.len(), |i: int| rev_parts@[i]@);
    proof {
        if cur_end > start {
            assert(chars.last() == s@[cur_end - 1]);
            assert(chars.last() != ']');
        }
    }
    if cur_end > start {
        let key: String = s.substring_char(start, cur_end).to_owned();
        proof {
            assert(key@ =~= chars);
        }
        rev_parts.push(JsonPathPart::Key(key));
        proof {
            assert(Seq::new(rev_parts@.len(), |i: int| rev_parts@[i]@) =~= acc.push(
                PathPartV::Key(chars),
            ));
        }
    }
    let ghost acc2 = Seq::new(rev_parts@.len(), |i: int| rev_parts@[i]@);
    let mut out: Vec<JsonPathPart> = Vec::new();
    let mut rest: Vec<JsonPathPart> = rev_parts;
    while rest.len() > 0
        invariant
            out@.len() + rest@.len() == acc2.len(),
            forall|i: int| 0 <= i < rest@.len() ==> #[trigger] rest@[i]@ == acc2[i],
            forall|i: int|
                0 <= i < out@.len() ==> #[trigger] out@[i]@ == acc2[acc2.len() - 1 - i],
        decreases rest@.len(),
    {
        let p: JsonPathPart = match rest.pop() {
            Some(p) => p,
            None => vstd::pervasive::unreached(),
        };
        out.push(p);
    }
    proof {
        assert(Seq::new(out@.len(), |i: int| out@[i]@) =~= acc2.reverse());
    }
    Ok(out)
}

/// Parses a whole path string into parts: chunks split on `'.'`, left to
/// right.
#[verifier::loop_isolation(false)]
#[verifier::rlimit(30)]
pub fn parse_path_str(s: &str) -> (r: Result<Vec<JsonPathPart>, JsonPathParseError>)
    ensures
        ({
            let spec_r = parse_path(s@);
            match r {
                Ok(v) => spec_r == Ok::<_, Seq<char>>(
                    Seq::new(v@.len(), |i: int| v@[i]@),
                ),
                Err(e) => spec_r == Err::<Seq<PathPartV>, _>(e@),
            }
        }),
{
    let n: usize = s.unicode_len();
    let mut out: Vec<JsonPathPart> = Vec::new();
    let mut chunk_start: usize = 0;
    proof {
        assert(s@.skip(0) =~= s@);
        let pre0 = Seq::new(out@.len(), |i: int| out@[i]@);
        assert(pre0 =~= Seq::<PathPartV>::empty());
        if parse_path(s@) is Ok {
            assert(pre0 + parse_path(s@)->Ok_0 =~= parse_path(s@)->Ok_0);
        }
    }
    loop
        invariant
            chunk_start <= n,
            n as int == s@.len(),
            ({
                let tail = parse_path(s@.skip(chunk_start as int));
                let pre = Seq::new(out@.len(), |i: int| out@[i]@);
                parse_path(s@) == match tail {
                    Ok(rest) => Ok::<_, Seq<char>>(pre + rest),
                    Err(e) => Err::<Seq<PathPartV>, _>(e),
                }
            }),
        decreases n - chunk_start,
    {
        let ghost suffix = s@.skip(chunk_start as int);
        let ghost pre = Seq::new(out@.len(), |i: int| out@[i]@);
        // scan for the next dot
        let mut e: usize = chunk_start;
        while e < n && s.get_char(e) != '.'
            invariant
                chunk_start <= e <= n,
                n as int == s@.len(),
                forall|k: int| chunk_start <= k < e ==> s@[k] != '.',
            decreases n - e,
        {
            e = e + 1;
        }
        proof {
            assert(forall|m: int| 0 <= m < suffix.len() ==> suffix[m] == s@[chunk_start + m]);
            lemma_first_dot(suffix);
            if e < n {
                // a dot at absolute position e
                assert(suffix[e - chunk_start as int] == '.');
                if first_dot(suffix) < 0 {
                    assert(false);
                } else if first_dot(suffix) < e - chunk_start {
                    assert(suffix[first_dot(suffix)] == s@[chunk_start + first_dot(suffix)]);
                    assert(false);
                } else if first_dot(suffix) > e - chunk_start {
                    assert(false);
                }
            } else {
                if first_dot(suffix) >= 0 {
                    assert(suffix[first_dot(suffix)] == '.');
                    assert(false);
                }
            }
            assert(suffix.take(e - chunk_start) =~= s@.subrange(chunk_start as int, e as int));
        }
        let chunk: Result<Vec<JsonPathPart>, JsonPathParseError> = parse_chunk_str(
            s,
            chunk_start,
            e,
        );
        match chunk {
            Err(err) => {
                return Err(err);
            },
            Ok(mut parts) => {
                let ghost parts_v = Seq::new(parts@.len(), |i: int| parts@[i]@);
                let m: usize = parts.len();
                let mut k: usize = 0;
                while k < m
                    invariant
                        k <= m,
                        m as int == parts@.len(),
                        out@.len() == pre.len() + k as int,
                        forall|i: int| 0 <= i < pre.len() ==> #[trigger] out@[i]@ == pre[i],
                        forall|i: int|
                            pre.len() <= i < out@.len() ==> #[trigger] out@[i]@ == parts_v[i
                                - pre.len()],
                        forall|i: int| k as int <= i < m as int ==> #[trigger] parts@[i]@
                            == parts_v[i],
                    decreases m - k,
                {
                    let p: JsonPathPart = parts[k].clone();
                    out.push(p);
                    k = k + 1;
                }
                proof {
                    assert(Seq::new(out@.len(), |i: int| out@[i]@) =~= pre + parts_v);
                }
                if e == n {
                    proof {
                        assert(suffix =~= s@.subrange(chunk_start as int, e as int));
                        assert(parse_path(suffix) == parse_chunk(suffix, Seq::empty()));
                    }
                    return Ok(out);
                }
                proof {
                    assert(suffix.skip(e - chunk_start + 1) =~= s@.skip(e + 1));
                    if parse_path(s@.skip(e + 1)) is Ok {
                        let rest = parse_path(s@.skip(e + 1))->Ok_0;
                        assert((pre + parts_v) + rest =~= pre + (parts_v + rest));
                    }
                }
                chunk_start = e + 1;
            },
        }
    }
}

impl crate::address::Address for JsonPath {
    open spec fn own_name_spec(&self) -> Seq<char> {
        if self@.len() == 0 {
            Seq::empty()
        } else {
            part_render(self@.last())
        }
    }

    open spec fn as_parts_spec(&self) -> Seq<Seq<char>> {
        Seq::new(self@.len(), |i: int| part_render(self@[i]))
    }

    /// The punctuated rendering of the final part: `.key`, `[i]`, or the
    /// empty string for the root path.
    fn own_name(&self) -> (r: String) {
        if self.0.len() == 0 {
            String::new()
        } else {
            self.0[self.0.len() - 1].render()
        }
    }

    /// The punctuated rendering of each part, in order.
    fn as_parts(&self) -> (r: Vec<String>) {
        let mut r: Vec<String> = Vec::new();
        let mut i: usize = 0;
        while i < self.0.len()
            invariant
                i <= self.0@.len(),
                r@.len() == i as int,
                forall|k: int| 0 <= k < i as int ==> #[trigger] r@[k]@ == part_render(self@[k]),
            decreases self.0@.len() - i,
    {
            r.push(self.0[i].render());
            i = i + 1;
        }
        r
    }
}

impl crate::address::SubAddress<JsonPathPart> for JsonPath {
    type Output = JsonPath;

    open spec fn sub_ok(&self, sub: &JsonPathPart) -> bool {
        true
    }

    open spec fn sub_rel(&self, sub: &JsonPathPart, out: &JsonPath) -> bool {
        out@ == self@.push(sub@)
    }

    fn sub(self, sub: JsonPathPart) -> (r: JsonPath) {
        self.sub_part(sub)
    }
}

impl crate::address::SubAddress<JsonPath> for JsonPath {
    type Output = JsonPath;

    open spec fn sub_ok(&self, sub: &JsonPath) -> bool {
        true
    }

    open spec fn sub_rel(&self, sub: &JsonPath, out: &JsonPath) -> bool {
        out@ == self@ + sub@
    }

    fn sub(self, sub: JsonPath) -> (r: JsonPath) {
        self.sub_path(sub)
    }
}

impl crate::address::PathAddress for JsonPath {
    type Error = JsonPathParseError;

    type Output = JsonPath;

    open spec fn path_ok(&self, s: Seq<char>) -> bool {
        parse_path(s) is Ok
    }

    open spec fn path_rel(&self, s: Seq<char>, out: &JsonPath) -> bool {
        out@ == self@ + parse_path(s)->Ok_0
    }

    open spec fn path_err(&self, s: Seq<char>, e: &JsonPathParseError) -> bool {
        parse_path(s) == Err::<Seq<PathPartV>, Seq<char>>(e@)
    }

    /// Parses `p` and appends the parsed parts to this path, as
    /// string-based navigation does.
    fn path(self, p: &str) -> (r: Result<JsonPath, JsonPathParseError>) {
        match parse_path_str(p) {
            Ok(parts) => Ok(self.sub_path(JsonPath(parts))),
            Err(e) => Err(e),
        }
    }
}

} // verus!
