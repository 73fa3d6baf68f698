//! Helpers: the clock, texts that stand for lists and maps, and what the
//! platform answered.

use crate::info::ApplicationState;
use crate::strmap::{distinct_keys, put, StringMap};
use crate::text::push_char;
use vstd::prelude::*;

verus! {

/// `SystemTime::now` of the standard library, as milliseconds since the
/// start of 1970; zero for a clock that is set before that. Nothing is
/// claimed of the result: it is the time.
#[verifier::external_body]
fn now_millis() -> (t: u64) {
    match std::time::SystemTime::now().duration_since(std::time::UNIX_EPOCH) {
        Ok(since) => since.as_millis() as u64,
        Err(_) => 0,
    }
}

/// The time in milliseconds since the start of 1970. Nothing is known of
/// it.
pub fn get_current_timestamp() -> (t: u64) {
    now_millis()
}

/// The characters of a text, in order.
pub(crate) fn to_chars(s: &str) -> (v: Vec<char>)
    ensures
        v@ == s@,
{
    broadcast use vstd::string::group_string_axioms;

    let mut v: Vec<char> = Vec::new();
    for c in it: s.chars()
        invariant
            v@ == it.seq().take(it.index() as int),
            it.seq() == s@,
    {
        v.push(c);
        proof {
            assert(v@ =~= it.seq().take(it.index() + 1));
        }
    }
    proof {
        assert(v@ =~= s@);
    }
    v
}

/// The text of a list of characters.
pub fn from_chars(v: &Vec<char>, from: usize, to: usize) -> (s: String)
    requires
        from <= to <= v@.len(),
    ensures
        s@ == v@.subrange(from as int, to as int),
{
    let mut s = String::new();
    let mut i: usize = from;
    proof {
        assert(s@ =~= v@.subrange(from as int, from as int));
    }
    while i < to
        invariant
            from <= i <= to <= v@.len(),
            s@ == v@.subrange(from as int, i as int),
        decreases to - i,
    {
        push_char(&mut s, v[i]);
        proof {
            assert(s@ =~= v@.subrange(from as int, i + 1));
        }
        i = i + 1;
    }
    s
}

/// Whether `sep` stands in `text` at position `at`.
pub open spec fn sep_at(text: Seq<char>, sep: Seq<char>, at: int) -> bool {
    0 <= at && at + sep.len() <= text.len() && text.subrange(at, at + sep.len()) == sep
}

/// The first position from `from` on at which `sep` stands in `text`, or
/// the length of `text` if there is none.
pub open spec fn find_sep(text: Seq<char>, sep: Seq<char>, from: int) -> int
    decreases text.len() - from,
{
    if from < 0 || from >= text.len() || from + sep.len() > text.len() {
        text.len() as int
    } else if sep_at(text, sep, from) {
        from
    } else {
        find_sep(text, sep, from + 1)
    }
}

/// The pieces of `text` between the occurrences of `sep`, from position
/// `from` on. There is always one piece at least.
pub open spec fn split_from(text: Seq<char>, sep: Seq<char>, from: int) -> Seq<Seq<char>>
    recommends
        sep.len() > 0,
    decreases text.len() - from,
{
    let p = find_sep(text, sep, from);
    if sep.len() == 0 || from < 0 || p >= text.len() || p < from || p + sep.len() > text.len() {
        seq![text.subrange(from, text.len() as int)]
    } else {
        seq![text.subrange(from, p)] + split_from(text, sep, p + sep.len())
    }
}

proof fn lemma_find_sep(text: Seq<char>, sep: Seq<char>, from: int)
    requires
        0 <= from <= text.len(),
    ensures
        from <= find_sep(text, sep, from) <= text.len(),
        find_sep(text, sep, from) < text.len() ==> sep_at(text, sep, find_sep(text, sep, from)),
        forall|k: int| from <= k < find_sep(text, sep, from) ==> !sep_at(text, sep, k),
        sep.len() > 0 && find_sep(text, sep, from) == text.len() ==> forall|k: int|
            from <= k ==> !sep_at(text, sep, k),
    decreases text.len() - from,
{
    if from < text.len() && from + sep.len() <= text.len() && !sep_at(text, sep, from) {
        lemma_find_sep(text, sep, from + 1);
    }
}

fn matches_sep(text: &Vec<char>, sep: &Vec<char>, at: usize) -> (b: bool)
    requires
        at + sep@.len() <= text@.len(),
    ensures
        b == sep_at(text@, sep@, at as int),
{
    let n = text.len();
    let mut i: usize = 0;
    while i < sep.len()
        invariant
            i <= sep@.len(),
            at + sep@.len() <= text@.len(),
            text@.len() <= usize::MAX,
            forall|j: int| 0 <= j < i ==> sep@[j] == text@[at + j],
        decreases sep@.len() - i,
    {
        if sep[i] != text[at + i] {
            proof {
                if sep_at(text@, sep@, at as int) {
                    assert(text@.subrange(at as int, at + sep@.len())[i as int] == sep@[i as int]);
                }
            }
            return false;
        }
        i = i + 1;
    }
    proof {
        assert(text@.subrange(at as int, at + sep@.len()) =~= sep@);
    }
    true
}

fn find_next(text: &Vec<char>, sep: &Vec<char>, from: usize) -> (p: usize)
    requires
        from <= text@.len(),
    ensures
        p == find_sep(text@, sep@, from as int),
        from <= p <= text@.len(),
{
    let n = text.len();
    let m = sep.len();
    let mut at: usize = from;
    proof {
        lemma_find_sep(text@, sep@, from as int);
    }
    while at < n && m <= n - at
        invariant
            from <= at <= n,
            n == text@.len(),
            m == sep@.len(),
            find_sep(text@, sep@, from as int) == find_sep(text@, sep@, at as int),
        decreases n - at,
    {
        if matches_sep(text, sep, at) {
            return at;
        }
        at = at + 1;
    }
    n
}

/// The pieces of `text` between the occurrences of `sep`.
#[verifier::rlimit(50)]
pub fn split_chars(text: &Vec<char>, sep: &Vec<char>) -> (pieces: Vec<(usize, usize)>)
    requires
        sep@.len() > 0,
    ensures
        pieces@.len() == split_from(text@, sep@, 0).len(),
        forall|i: int|
            0 <= i < pieces@.len() ==> (#[trigger] pieces@[i]).0 <= pieces@[i].1 <= text@.len()
                && text@.subrange(pieces@[i].0 as int, pieces@[i].1 as int) == split_from(
                text@,
                sep@,
                0,
            )[i],
{
    let n = text.len();
    let mut pieces: Vec<(usize, usize)> = Vec::new();
    let mut from: usize = 0;
    let ghost want = split_from(text@, sep@, 0);
    loop
        invariant
            from <= n,
            n == text@.len(),
            sep@.len() > 0,
            want == split_from(text@, sep@, 0),
            want == Seq::new(
                pieces@.len(),
                |i: int| text@.subrange(pieces@[i].0 as int, pieces@[i].1 as int),
            ) + split_from(text@, sep@, from as int),
            forall|i: int| 0 <= i < pieces@.len() ==> (#[trigger] pieces@[i]).0 <= pieces@[i].1 <= n,
        decreases n - from,
    {
        let ghost done = Seq::new(
            pieces@.len(),
            |i: int| text@.subrange(pieces@[i].0 as int, pieces@[i].1 as int),
        );
        let p = find_next(text, sep, from);
        proof {
            lemma_find_sep(text@, sep@, from as int);
        }
        if p >= n {
            pieces.push((from, n));
            proof {
                let now = Seq::new(
                    pieces@.len(),
                    |i: int| text@.subrange(pieces@[i].0 as int, pieces@[i].1 as int),
                );
                assert(now =~= done + seq![text@.subrange(from as int, n as int)]);
                assert(want =~= now);
                assert forall|i: int| 0 <= i < pieces@.len() implies text@.subrange(
                    (#[trigger] pieces@[i]).0 as int,
                    pieces@[i].1 as int,
                ) == want[i] by {
                    assert(now[i] == want[i]);
                }
            }
            return pieces;
        }
        pieces.push((from, p));
        proof {
            let now = Seq::new(
                pieces@.len(),
                |i: int| text@.subrange(pieces@[i].0 as int, pieces@[i].1 as int),
            );
            assert(now =~= done + seq![text@.subrange(from as int, p as int)]);
            assert(want =~= now + split_from(text@, sep@, p + sep@.len()));
        }
        from = p + sep.len();
    }
}

/// A map as a text: key, tab and value of each pair, with a carriage
/// return and a line feed between the pairs.
pub open spec fn pairs_text(s: Seq<(Seq<char>, Seq<char>)>) -> Seq<char>
    decreases s.len(),
{
    if s.len() == 0 {
        Seq::empty()
    } else if s.len() == 1 {
        s[0].0.push('\t') + s[0].1
    } else {
        pairs_text(s.drop_last()).push('\r').push('\n') + s.last().0.push('\t') + s.last().1
    }
}

/// A map as a text.
#[verifier::rlimit(50)]
pub fn hashmap_to_string(map: &StringMap) -> (r: String)
    ensures
        r@ == pairs_text(map@),
{
    let mut r = String::new();
    let mut i: usize = 0;
    proof {
        assert(map@.take(0) =~= Seq::empty());
        assert(r@ =~= pairs_text(map@.take(0)));
    }
    while i < map.len()
        invariant
            i <= map@.len(),
            r@ == pairs_text(map@.take(i as int)),
        decreases map@.len() - i,
    {
        let ghost before = r@;
        if i != 0 {
            push_char(&mut r, '\r');
            push_char(&mut r, '\n');
        }
        r = r.concat(map.key_at(i).as_str());
        push_char(&mut r, '\t');
        r = r.concat(map.value_at(i).as_str());
        proof {
            let t = map@.take(i + 1);
            assert(t.drop_last() =~= map@.take(i as int));
            assert(t.last() == map@[i as int]);
            if i == 0 {
                assert(before =~= Seq::empty());
                assert(r@ =~= t[0].0.push('\t') + t[0].1);
            } else {
                assert(r@ =~= before.push('\r').push('\n') + t.last().0.push('\t') + t.last().1);
            }
        }
        i = i + 1;
    }
    proof {
        assert(map@.take(i as int) =~= map@);
    }
    r
}

/// The position of the first tab in `line`, or its length.
pub open spec fn tab_index(line: Seq<char>) -> int
    decreases line.len(),
{
    if line.len() == 0 {
        0
    } else if line[0] == '\t' {
        0
    } else {
        1 + tab_index(line.drop_first())
    }
}

/// The pairs that the lines from `n` on down to the first stand for: of
/// each line what stands before its first tab and what stands behind it.
/// `None` where a line has no tab. Of a key that occurs twice the last
/// value counts.
pub open spec fn pairs_of_lines(lines: Seq<Seq<char>>, n: int) -> Option<Seq<(Seq<char>, Seq<char>)>>
    decreases n,
{
    if n <= 0 {
        Some(Seq::empty())
    } else {
        let line = lines[n - 1];
        let t = tab_index(line);
        match pairs_of_lines(lines, n - 1) {
            None => None,
            Some(m) => if t >= line.len() {
                None
            } else {
                Some(put(m, line.subrange(0, t), line.subrange(t + 1, line.len() as int)))
            },
        }
    }
}

/// The map that a text stands for: no pair for an empty text, else one for
/// each of its lines.
pub open spec fn parsed_pairs(text: Seq<char>) -> Option<Seq<(Seq<char>, Seq<char>)>> {
    if text.len() == 0 {
        Some(Seq::empty())
    } else {
        let lines = split_from(text, seq!['\r', '\n'], 0);
        pairs_of_lines(lines, lines.len() as int)
    }
}

proof fn lemma_tab_index(line: Seq<char>)
    ensures
        0 <= tab_index(line) <= line.len(),
        tab_index(line) < line.len() ==> line[tab_index(line)] == '\t',
        forall|i: int| 0 <= i < tab_index(line) ==> line[i] != '\t',
    decreases line.len(),
{
    if line.len() > 0 && line[0] != '\t' {
        let rest = line.drop_first();
        lemma_tab_index(rest);
        assert forall|i: int| 0 <= i < tab_index(line) implies line[i] != '\t' by {
            if i > 0 {
                assert(line[i] == rest[i - 1]);
            }
        }
    }
}

fn find_tab(text: &Vec<char>, from: usize, to: usize) -> (p: usize)
    requires
        from <= to <= text@.len(),
    ensures
        p == from + tab_index(text@.subrange(from as int, to as int)),
        from <= p <= to,
{
    let ghost line = text@.subrange(from as int, to as int);
    let mut i: usize = from;
    proof {
        lemma_tab_index(line);
    }
    while i < to
        invariant
            from <= i <= to <= text@.len(),
            line == text@.subrange(from as int, to as int),
            forall|j: int| 0 <= j < i - from ==> line[j] != '\t',
        decreases to - i,
    {
        if text[i] == '\t' {
            proof {
                lemma_tab_index(line);
                assert(line[i - from] == '\t');
                let t = tab_index(line);
                if t > i - from {
                    assert(line[i - from] != '\t');
                }
            }
            return i;
        }
        proof {
            assert(line[i - from] == text@[i as int]);
        }
        i = i + 1;
    }
    proof {
        lemma_tab_index(line);
        let t = tab_index(line);
        if t < line.len() {
            assert(line[t] != '\t');
        }
    }
    to
}

/// Reads a map from a text. `None` where a line has no tab.
#[verifier::rlimit(50)]
pub fn string_to_hashmap(text: &str) -> (r: Option<StringMap>)
    ensures
        r.is_some() == parsed_pairs(text@).is_some(),
        r.is_some() ==> r.unwrap()@ == parsed_pairs(text@).unwrap(),
{
    let mut map = StringMap::new();
    let chars = to_chars(text);
    if chars.len() == 0 {
        return Some(map);
    }
    let mut sep: Vec<char> = Vec::new();
    sep.push('\r');
    sep.push('\n');
    proof {
        assert(sep@ =~= seq!['\r', '\n']);
    }
    let pieces = split_chars(&chars, &sep);
    let ghost lines = split_from(chars@, sep@, 0);
    let mut i: usize = 0;
    while i < pieces.len()
        invariant
            i <= pieces@.len(),
            pieces@.len() == lines.len(),
            forall|k: int|
                0 <= k < pieces@.len() ==> (#[trigger] pieces@[k]).0 <= pieces@[k].1
                    <= chars@.len() && chars@.subrange(
                    pieces@[k].0 as int,
                    pieces@[k].1 as int,
                ) == lines[k],
            pairs_of_lines(lines, i as int) == Some(map@),
            chars@ == text@,
            chars@.len() > 0,
            lines == split_from(chars@, seq!['\r', '\n'], 0),
        decreases pieces@.len() - i,
    {
        let (from, to) = pieces[i];
        let ghost line = lines[i as int];
        proof {
            assert(chars@.subrange(pieces@[i as int].0 as int, pieces@[i as int].1 as int)
                == line);
        }
        let t = find_tab(&chars, from, to);
        if t >= to {
            proof {
                assert(pairs_of_lines(lines, i + 1).is_none());
                lemma_pairs_of_lines_none(lines, i + 1, lines.len() as int);
            }
            return None;
        }
        let key = from_chars(&chars, from, t);
        let value = from_chars(&chars, t + 1, to);
        proof {
            assert(key@ =~= line.subrange(0, t - from));
            assert(value@ =~= line.subrange(t - from + 1, line.len() as int));
        }
        map.insert(key, value);
        i = i + 1;
    }
    Some(map)
}

proof fn lemma_pairs_of_lines_none(lines: Seq<Seq<char>>, n: int, m: int)
    requires
        0 <= n <= m,
        pairs_of_lines(lines, n).is_none(),
    ensures
        pairs_of_lines(lines, m).is_none(),
    decreases m - n,
{
    if n < m {
        lemma_pairs_of_lines_none(lines, n, m - 1);
    }
}

/// How many characters at the start of `text` are brackets.
pub open spec fn leading_brackets(text: Seq<char>) -> int
    decreases text.len(),
{
    if text.len() > 0 && (text[0] == '[' || text[0] == ']') {
        1 + leading_brackets(text.drop_first())
    } else {
        0
    }
}

/// How many characters at the end of `text` are brackets.
pub open spec fn trailing_brackets(text: Seq<char>) -> int
    decreases text.len(),
{
    if text.len() > 0 && (text.last() == '[' || text.last() == ']') {
        1 + trailing_brackets(text.drop_last())
    } else {
        0
    }
}

/// `text` without the brackets at its start and at its end.
pub open spec fn trim_brackets(text: Seq<char>) -> Seq<char> {
    let a = leading_brackets(text);
    if a >= text.len() {
        Seq::empty()
    } else {
        text.subrange(a, text.len() - trailing_brackets(text))
    }
}

proof fn lemma_leading(text: Seq<char>)
    ensures
        0 <= leading_brackets(text) <= text.len(),
        forall|i: int|
            0 <= i < leading_brackets(text) ==> text[i] == '[' || text[i] == ']',
        leading_brackets(text) < text.len() ==> text[leading_brackets(text)] != '['
            && text[leading_brackets(text)] != ']',
    decreases text.len(),
{
    if text.len() > 0 && (text[0] == '[' || text[0] == ']') {
        let rest = text.drop_first();
        lemma_leading(rest);
        assert forall|i: int| 0 <= i < leading_brackets(text) implies text[i] == '[' || text[i]
            == ']' by {
            if i > 0 {
                assert(text[i] == rest[i - 1]);
            }
        }
        if leading_brackets(text) < text.len() {
            assert(text[leading_brackets(text)] == rest[leading_brackets(rest)]);
        }
    }
}

proof fn lemma_trailing(text: Seq<char>)
    ensures
        0 <= trailing_brackets(text) <= text.len(),
        forall|i: int|
            text.len() - trailing_brackets(text) <= i < text.len() ==> text[i] == '[' || text[i]
                == ']',
        trailing_brackets(text) < text.len() ==> text[text.len() - trailing_brackets(text) - 1]
            != '[' && text[text.len() - trailing_brackets(text) - 1] != ']',
    decreases text.len(),
{
    if text.len() > 0 && (text.last() == '[' || text.last() == ']') {
        let rest = text.drop_last();
        lemma_trailing(rest);
        assert forall|i: int|
            text.len() - trailing_brackets(text) <= i < text.len() implies text[i] == '['
                || text[i] == ']' by {
            if i < text.len() - 1 {
                assert(text[i] == rest[i]);
            }
        }
    }
}

/// The items of a list that is written in brackets with a comma and a
/// blank between the items.
pub open spec fn list_items(text: Seq<char>) -> Seq<Seq<char>> {
    split_from(trim_brackets(text), seq![',', ' '], 0)
}

/// The items of a list that is written in brackets.
#[verifier::rlimit(50)]
pub fn split_string(text: &str) -> (items: Vec<String>)
    ensures
        crate::config::strings_view(items@) == list_items(text@),
{
    let chars = to_chars(text);
    let n = chars.len();
    let mut a: usize = 0;
    proof {
        lemma_leading(chars@);
        lemma_trailing(chars@);
    }
    while a < n && (chars[a] == '[' || chars[a] == ']')
        invariant
            a <= n,
            n == chars@.len(),
            a <= leading_brackets(chars@),
        decreases n - a,
    {
        proof {
            lemma_leading(chars@);
        }
        a = a + 1;
    }
    proof {
        lemma_leading(chars@);
        if a < leading_brackets(chars@) {
            assert(chars@[a as int] == '[' || chars@[a as int] == ']');
        }
    }
    let mut b: usize = n;
    while b > a && (chars[b - 1] == '[' || chars[b - 1] == ']')
        invariant
            a <= b <= n,
            n == chars@.len(),
            n - b <= trailing_brackets(chars@),
        decreases b,
    {
        proof {
            lemma_trailing(chars@);
        }
        b = b - 1;
    }
    let mut inner: Vec<char> = Vec::new();
    let mut i: usize = a;
    while i < b
        invariant
            a <= i <= b <= n,
            n == chars@.len(),
            inner@ == chars@.subrange(a as int, i as int),
        decreases b - i,
    {
        inner.push(chars[i]);
        proof {
            assert(inner@ =~= chars@.subrange(a as int, i + 1));
        }
        i = i + 1;
    }
    proof {
        lemma_trailing(chars@);
        lemma_leading(chars@);
        let lead = leading_brackets(chars@);
        let trail = trailing_brackets(chars@);
        if a == n {
            assert(inner@ =~= Seq::empty());
        } else {
            if n - b < trail {
                assert(chars@[b - 1] == '[' || chars@[b - 1] == ']');
            }
            assert(inner@ =~= trim_brackets(chars@));
        }
    }
    let mut sep: Vec<char> = Vec::new();
    sep.push(',');
    sep.push(' ');
    proof {
        assert(sep@ =~= seq![',', ' ']);
    }
    let pieces = split_chars(&inner, &sep);
    let mut items: Vec<String> = Vec::new();
    let mut k: usize = 0;
    while k < pieces.len()
        invariant
            k <= pieces@.len(),
            items@.len() == k,
            pieces@.len() == split_from(inner@, sep@, 0).len(),
            forall|x: int|
                0 <= x < pieces@.len() ==> (#[trigger] pieces@[x]).0 <= pieces@[x].1
                    <= inner@.len() && inner@.subrange(
                    pieces@[x].0 as int,
                    pieces@[x].1 as int,
                ) == split_from(inner@, sep@, 0)[x],
            forall|x: int| 0 <= x < k ==> (#[trigger] items@[x])@ == split_from(inner@, sep@, 0)[x],
        decreases pieces@.len() - k,
    {
        let (from, to) = pieces[k];
        proof {
            assert(inner@.subrange(pieces@[k as int].0 as int, pieces@[k as int].1 as int)
                == split_from(inner@, sep@, 0)[k as int]);
        }
        items.push(from_chars(&inner, from, to));
        k = k + 1;
    }
    proof {
        assert(crate::config::strings_view(items@) =~= list_items(text@));
    }
    items
}

/// What is known of an application from the application in front: the
/// application in front is in the foreground and every other in the
/// background; where none is known, every application counts as being in
/// the foreground.
pub open spec fn app_state_of(uid: u64, top_uid: Option<u64>) -> ApplicationState {
    match top_uid {
        Some(top) => if top == uid {
            ApplicationState::Foreground
        } else {
            ApplicationState::Background
        },
        None => ApplicationState::Foreground,
    }
}

pub fn query_app_state(uid: u64, top_uid: Option<u64>) -> (s: ApplicationState)
    ensures
        s == app_state_of(uid, top_uid),
{
    match top_uid {
        Some(top) => {
            if top == uid {
                ApplicationState::Foreground
            } else {
                ApplicationState::Background
            }
        },
        None => ApplicationState::Foreground,
    }
}

/// How often the platform is asked for the application in front.
pub const TOP_UID_ATTEMPTS: u32 = 10;

/// What follows an answer of the platform to the question which
/// application is in front.
#[derive(Clone, Copy, PartialEq, Eq, Structural, Debug)]
pub enum TopUidStep {
    Found(u64),
    Retry,
    GiveUp,
}

/// What follows the answer to attempt number `attempt`, counted from zero:
/// an answer without error that names an application is taken; any other
/// is followed by another attempt, and by none after the last.
pub open spec fn top_uid_step(ret: i32, uid: i32, attempt: u32) -> TopUidStep {
    if ret == 0 && uid > 0 {
        TopUidStep::Found(uid as u64)
    } else if ret == 0 && uid < 0 {
        TopUidStep::Found((uid + 0x1_0000_0000_0000_0000) as u64)
    } else if attempt + 1 < TOP_UID_ATTEMPTS {
        TopUidStep::Retry
    } else {
        TopUidStep::GiveUp
    }
}

pub fn query_top_uid_step(ret: i32, uid: i32, attempt: u32) -> (s: TopUidStep)
    ensures
        s == top_uid_step(ret, uid, attempt),
{
    if ret == 0 && uid != 0 {
        if uid > 0 {
            TopUidStep::Found(uid as u64)
        } else {
            TopUidStep::Found(0xffff_ffff_ffff_ffffu64 - ((-(uid + 1)) as u64))
        }
    } else if attempt < TOP_UID_ATTEMPTS - 1 {
        TopUidStep::Retry
    } else {
        TopUidStep::GiveUp
    }
}

/// What the platform is told of a task whose progress is shown to the
/// user.
#[derive(Clone, Copy, Debug)]
pub struct RequestTaskMsg {
    pub task_id: u32,
    pub uid: i32,
    pub action: u8,
}

/// Whether the platform took the news of a change of state: `published` is
/// its answer.
pub fn publish_state_change_event(bundle_name: &str, task_id: u32, state: i32, published: bool) -> (r:
    Result<(), ()>)
    ensures
        r.is_ok() == published,
{
    if published {
        Ok(())
    } else {
        Err(())
    }
}

/// Whether the platform took the progress to show: `code` is its answer,
/// zero for success.
pub fn request_background_notify(
    msg: RequestTaskMsg,
    wrapped_path: &str,
    wrapped_file_name: &str,
    percent: u32,
    code: i32,
) -> (r: Result<(), i32>)
    ensures
        r == (if code == 0 {
            Ok::<(), i32>(())
        } else {
            Err::<(), i32>(code)
        }),
{
    if code == 0 {
        Ok(())
    } else {
        Err(code)
    }
}

/// The line of a pair: key, tab, value.
pub open spec fn pair_line(p: (Seq<char>, Seq<char>)) -> Seq<char> {
    p.0.push('\t') + p.1
}

/// Whether `a` stands nowhere in a text with `b` right behind it.
pub open spec fn no_break(line: Seq<char>, a: char, b: char) -> bool {
    forall|i: int| 0 <= i && i + 1 < line.len() ==> !(#[trigger] line[i] == a && line[i + 1] == b)
}

/// Whether a pair can be written and read back: its key holds no tab, and
/// neither its key nor its value holds the end of a line, which is a
/// carriage return with a line feed behind it.
pub open spec fn plain_pair(p: (Seq<char>, Seq<char>)) -> bool {
    &&& forall|i: int| 0 <= i < p.0.len() ==> p.0[i] != '\t'
    &&& no_break(p.0, '\r', '\n')
    &&& no_break(p.1, '\r', '\n')
}

proof fn lemma_pairs_text_front(s: Seq<(Seq<char>, Seq<char>)>)
    requires
        s.len() >= 2,
    ensures
        pairs_text(s) == pair_line(s[0]).push('\r').push('\n') + pairs_text(s.drop_first()),
    decreases s.len(),
{
    let init = s.drop_last();
    let tail = s.drop_first();
    reveal_with_fuel(pairs_text, 3);
    if s.len() == 2 {
        assert(init.len() == 1 && tail.len() == 1);
        assert(init[0] == s[0]);
        assert(tail[0] == s[1]);
        assert(pairs_text(s) =~= pair_line(s[0]).push('\r').push('\n') + pairs_text(tail));
    } else {
        lemma_pairs_text_front(init);
        assert(init.drop_first() =~= tail.drop_last());
        assert(init[0] == s[0]);
        assert(tail.last() == s.last());
        assert(pairs_text(tail) == pairs_text(tail.drop_last()).push('\r').push('\n')
            + tail.last().0.push('\t') + tail.last().1);
        assert(pairs_text(s) =~= pair_line(s[0]).push('\r').push('\n') + pairs_text(tail));
    }
}

proof fn lemma_find_sep_shift(text: Seq<char>, sep: Seq<char>, from: int, k: int)
    requires
        0 <= k <= from <= text.len(),
        sep.len() > 0,
    ensures
        find_sep(text, sep, from) == k + find_sep(text.skip(k), sep, from - k),
    decreases text.len() - from,
{
    let t = text.skip(k);
    if from < text.len() && from + sep.len() <= text.len() {
        assert(text.subrange(from, from + sep.len()) =~= t.subrange(
            from - k,
            from - k + sep.len(),
        ));
        if !sep_at(text, sep, from) {
            lemma_find_sep_shift(text, sep, from + 1, k);
        }
    }
}

proof fn lemma_split_shift(text: Seq<char>, sep: Seq<char>, from: int)
    requires
        0 <= from <= text.len(),
        sep.len() > 0,
    ensures
        split_from(text, sep, from) == split_from(text.skip(from), sep, 0),
    decreases text.len() - from,
{
    let t = text.skip(from);
    lemma_find_sep_shift(text, sep, from, from);
    lemma_find_sep(text, sep, from);
    lemma_find_sep(t, sep, 0);
    let p = find_sep(text, sep, from);
    let q = find_sep(t, sep, 0);
    assert(p == from + q);
    if p >= text.len() || p + sep.len() > text.len() {
        assert(text.subrange(from, text.len() as int) =~= t.subrange(0, t.len() as int));
    } else {
        assert(text.subrange(from, p) =~= t.subrange(0, q));
        lemma_split_shift(text, sep, p + sep.len());
        lemma_split_shift(t, sep, q + sep.len());
        assert(text.skip(p + sep.len()) =~= t.skip(q + sep.len()));
    }
}

proof fn lemma_split_first_line(line: Seq<char>, rest: Seq<char>, a: char, b: char)
    requires
        forall|i: int| 0 <= i < line.len() ==> line[i] != a,
    ensures
        split_from(line.push(a).push(b) + rest, seq![a, b], 0) == seq![line] + split_from(
            rest,
            seq![a, b],
            0,
        ),
{
    let sep = seq![a, b];
    let text = line.push(a).push(b) + rest;
    let n = line.len() as int;
    lemma_find_sep(text, sep, 0);
    let p = find_sep(text, sep, 0);
    assert(text.subrange(n, n + 2) =~= sep);
    assert(sep_at(text, sep, n));
    if p < n {
        assert(sep_at(text, sep, p));
        assert(text.subrange(p, p + 2)[0] == a);
        assert(text[p] == line[p]);
    }
    assert(p == n);
    assert(text.subrange(0, n) =~= line);
    lemma_split_shift(text, sep, n + 2);
    assert(text.skip(n + 2) =~= rest);
}

proof fn lemma_split_first_unbroken(line: Seq<char>, rest: Seq<char>, a: char, b: char)
    requires
        a != b,
        no_break(line, a, b),
    ensures
        split_from(line.push(a).push(b) + rest, seq![a, b], 0) == seq![line] + split_from(
            rest,
            seq![a, b],
            0,
        ),
{
    let sep = seq![a, b];
    let text = line.push(a).push(b) + rest;
    let n = line.len() as int;
    lemma_find_sep(text, sep, 0);
    let p = find_sep(text, sep, 0);
    assert(text.subrange(n, n + 2) =~= sep);
    assert(sep_at(text, sep, n));
    if p < n {
        assert(sep_at(text, sep, p));
        assert(text.subrange(p, p + 2)[0] == a);
        assert(text.subrange(p, p + 2)[1] == b);
        assert(text[p] == line[p]);
        if p + 1 < n {
            assert(text[p + 1] == line[p + 1]);
        } else {
            assert(text[p + 1] == a);
        }
    }
    assert(p == n);
    assert(text.subrange(0, n) =~= line);
    lemma_split_shift(text, sep, n + 2);
    assert(text.skip(n + 2) =~= rest);
}

proof fn lemma_split_single_unbroken(line: Seq<char>, a: char, b: char)
    requires
        no_break(line, a, b),
    ensures
        split_from(line, seq![a, b], 0) == seq![line],
{
    let sep = seq![a, b];
    lemma_find_sep(line, sep, 0);
    let p = find_sep(line, sep, 0);
    if p < line.len() {
        assert(sep_at(line, sep, p));
        assert(line.subrange(p, p + 2)[0] == a);
        assert(line.subrange(p, p + 2)[1] == b);
        assert(line[p] == a);
    }
    assert(line.subrange(0, line.len() as int) =~= line);
}

proof fn lemma_split_single_line(line: Seq<char>, a: char, b: char)
    requires
        forall|i: int| 0 <= i < line.len() ==> line[i] != a,
    ensures
        split_from(line, seq![a, b], 0) == seq![line],
{
    let sep = seq![a, b];
    lemma_find_sep(line, sep, 0);
    let p = find_sep(line, sep, 0);
    if p < line.len() {
        assert(sep_at(line, sep, p));
        assert(line.subrange(p, p + 2)[0] == a);
    }
    assert(line.subrange(0, line.len() as int) =~= line);
}

/// The lines of the pairs.
pub open spec fn pair_lines(s: Seq<(Seq<char>, Seq<char>)>) -> Seq<Seq<char>> {
    Seq::new(s.len(), |i: int| pair_line(s[i]))
}

proof fn lemma_split_pairs_text(s: Seq<(Seq<char>, Seq<char>)>)
    requires
        s.len() >= 1,
        forall|i: int| 0 <= i < s.len() ==> plain_pair(#[trigger] s[i]),
    ensures
        split_from(pairs_text(s), seq!['\r', '\n'], 0) == pair_lines(s),
    decreases s.len(),
{
    let line = pair_line(s[0]);
    assert(plain_pair(s[0]));
    let key = s[0].0;
    let value = s[0].1;
    assert forall|i: int| 0 <= i && i + 1 < line.len() implies !(#[trigger] line[i] == '\r'
        && line[i + 1] == '\n') by {
        if i + 1 < key.len() {
            assert(line[i] == key[i] && line[i + 1] == key[i + 1]);
        } else if i + 1 == key.len() {
            assert(line[i + 1] == '\t');
        } else if i == key.len() {
            assert(line[i] == '\t');
        } else {
            let k = i - key.len() - 1;
            assert(line[i] == value[k] && line[i + 1] == value[k + 1]);
        }
    }
    if s.len() == 1 {
        lemma_split_single_unbroken(line, '\r', '\n');
        assert(pair_lines(s) =~= seq![line]);
    } else {
        let tail = s.drop_first();
        lemma_pairs_text_front(s);
        assert forall|i: int| 0 <= i < tail.len() implies plain_pair(#[trigger] tail[i]) by {
            assert(tail[i] == s[i + 1]);
        }
        lemma_split_pairs_text(tail);
        lemma_split_first_unbroken(line, pairs_text(tail), '\r', '\n');
        assert(pair_lines(s) =~= seq![line] + pair_lines(tail));
    }
}

proof fn lemma_pairs_of_plain_lines(s: Seq<(Seq<char>, Seq<char>)>, n: int)
    requires
        0 <= n <= s.len(),
        forall|i: int| 0 <= i < s.len() ==> plain_pair(#[trigger] s[i]),
    ensures
        pairs_of_lines(pair_lines(s), n) == Some(
            crate::strmap::put_all(Seq::empty(), s.take(n)),
        ),
    decreases n,
{
    if n > 0 {
        lemma_pairs_of_plain_lines(s, n - 1);
        let p = s[n - 1];
        let line = pair_line(p);
        assert(plain_pair(s[n - 1]));
        lemma_tab_index(line);
        let t = tab_index(line);
        assert(line[p.0.len() as int] == '\t');
        if t < p.0.len() {
            assert(line[t] == p.0[t]);
        }
        assert(t == p.0.len());
        assert(line.subrange(0, t) =~= p.0);
        assert(line.subrange(t + 1, line.len() as int) =~= p.1);
        assert(s.take(n).drop_last() =~= s.take(n - 1));
        assert(s.take(n).last() == p);
        assert(pair_lines(s)[n - 1] == line);
    } else {
        assert(s.take(0) =~= Seq::empty());
    }
}

/// A map that is written as a text and read back is the same map,
/// provided that it can be written plainly: no key holds a tab, and no key
/// and no value the end of a line.
pub proof fn lemma_pairs_round_trip(s: Seq<(Seq<char>, Seq<char>)>)
    requires
        distinct_keys(s),
        forall|i: int| 0 <= i < s.len() ==> plain_pair(#[trigger] s[i]),
    ensures
        parsed_pairs(pairs_text(s)) == Some(s),
{
    if s.len() == 0 {
    } else {
        lemma_split_pairs_text(s);
        lemma_pairs_of_plain_lines(s, s.len() as int);
        assert(s.take(s.len() as int) =~= s);
        crate::strmap::lemma_put_all_distinct(s);
        lemma_pairs_text_nonempty(s);
    }
}

proof fn lemma_pairs_text_nonempty(s: Seq<(Seq<char>, Seq<char>)>)
    requires
        s.len() >= 1,
    ensures
        pairs_text(s).len() > 0,
{
}

/// Items with a comma and a blank between them.
pub open spec fn joined_items(items: Seq<Seq<char>>) -> Seq<char>
    decreases items.len(),
{
    if items.len() == 0 {
        Seq::empty()
    } else if items.len() == 1 {
        items[0]
    } else {
        items[0].push(',').push(' ') + joined_items(items.drop_first())
    }
}

/// A list as a text: its items in brackets, with a comma and a blank
/// between them.
pub open spec fn list_text(items: Seq<Seq<char>>) -> Seq<char> {
    seq!['['] + joined_items(items) + seq![']']
}

/// Whether an item can be written in a list and read back: it holds no
/// comma and no bracket.
pub open spec fn plain_item(item: Seq<char>) -> bool {
    forall|i: int| 0 <= i < item.len() ==> item[i] != ',' && item[i] != '[' && item[i] != ']'
}

/// The numbers as items of a list.
pub open spec fn number_items(numbers: Seq<i64>) -> Seq<Seq<char>> {
    Seq::new(numbers.len(), |i: int| crate::text::signed_decimal(numbers[i] as int))
}

proof fn lemma_joined_push(items: Seq<Seq<char>>, item: Seq<char>)
    requires
        items.len() >= 1,
    ensures
        joined_items(items.push(item)) == joined_items(items).push(',').push(' ') + item,
    decreases items.len(),
{
    let all = items.push(item);
    reveal_with_fuel(joined_items, 3);
    if items.len() == 1 {
        assert(all.drop_first() =~= seq![item]);
        assert(all[0] == items[0]);
        assert(joined_items(all) =~= joined_items(items).push(',').push(' ') + item);
    } else {
        lemma_joined_push(items.drop_first(), item);
        assert(all.drop_first() =~= items.drop_first().push(item));
        assert(all[0] == items[0]);
        assert(joined_items(all) =~= joined_items(items).push(',').push(' ') + item);
    }
}

/// Writes numbers as a list in brackets.
pub fn numbers_to_string(numbers: &Vec<i64>) -> (r: String)
    ensures
        r@ == list_text(number_items(numbers@)),
{
    let mut r = String::new();
    push_char(&mut r, '[');
    let mut i: usize = 0;
    let ghost items = number_items(numbers@);
    proof {
        assert(items.take(0) =~= Seq::empty());
        assert(r@ =~= seq!['['] + joined_items(items.take(0)));
    }
    while i < numbers.len()
        invariant
            i <= numbers@.len(),
            items == number_items(numbers@),
            r@ == seq!['['] + joined_items(items.take(i as int)),
        decreases numbers@.len() - i,
    {
        let ghost before = r@;
        if i != 0 {
            push_char(&mut r, ',');
            push_char(&mut r, ' ');
        }
        crate::text::append_signed_decimal(&mut r, numbers[i]);
        proof {
            let done = items.take(i as int);
            let item = items[i as int];
            assert(items.take(i + 1) =~= done.push(item));
            if i == 0 {
                assert(done =~= Seq::empty());
                assert(done.push(item) =~= seq![item]);
                assert(r@ =~= seq!['['] + joined_items(items.take(i + 1)));
            } else {
                lemma_joined_push(done, item);
                assert(r@ =~= seq!['['] + joined_items(items.take(i + 1)));
            }
        }
        i = i + 1;
    }
    push_char(&mut r, ']');
    proof {
        assert(items.take(i as int) =~= items);
        assert(r@ =~= list_text(items));
    }
    r
}

proof fn lemma_split_joined(items: Seq<Seq<char>>)
    requires
        items.len() >= 1,
        forall|i: int| 0 <= i < items.len() ==> plain_item(#[trigger] items[i]),
    ensures
        split_from(joined_items(items), seq![',', ' '], 0) == items,
    decreases items.len(),
{
    assert(plain_item(items[0]));
    if items.len() == 1 {
        lemma_split_single_line(items[0], ',', ' ');
        assert(items =~= seq![items[0]]);
    } else {
        let tail = items.drop_first();
        assert forall|i: int| 0 <= i < tail.len() implies plain_item(#[trigger] tail[i]) by {
            assert(tail[i] == items[i + 1]);
        }
        lemma_split_joined(tail);
        lemma_split_first_line(items[0], joined_items(tail), ',', ' ');
        assert(items =~= seq![items[0]] + tail);
    }
}

proof fn lemma_joined_plain(items: Seq<Seq<char>>)
    requires
        forall|i: int| 0 <= i < items.len() ==> plain_item(#[trigger] items[i]),
    ensures
        forall|k: int|
            0 <= k < joined_items(items).len() ==> joined_items(items)[k] != '[' && joined_items(
                items,
            )[k] != ']',
    decreases items.len(),
{
    if items.len() == 1 {
        assert(plain_item(items[0]));
    } else if items.len() >= 2 {
        let tail = items.drop_first();
        assert(plain_item(items[0]));
        assert forall|i: int| 0 <= i < tail.len() implies plain_item(#[trigger] tail[i]) by {
            assert(tail[i] == items[i + 1]);
        }
        lemma_joined_plain(tail);
        let j = joined_items(items);
        let head = items[0].push(',').push(' ');
        assert forall|k: int| 0 <= k < j.len() implies j[k] != '[' && j[k] != ']' by {
            if k < items[0].len() {
                assert(j[k] == items[0][k]);
            } else if k >= head.len() {
                assert(j[k] == joined_items(tail)[k - head.len()]);
            }
        }
    }
}

proof fn lemma_trim_plain(inner: Seq<char>)
    requires
        forall|k: int| 0 <= k < inner.len() ==> inner[k] != '[' && inner[k] != ']',
    ensures
        trim_brackets(seq!['['] + inner + seq![']']) == inner,
{
    let text = seq!['['] + inner + seq![']'];
    lemma_leading(text);
    lemma_trailing(text);
    let a = leading_brackets(text);
    let b = trailing_brackets(text);
    assert(text[0] == '[');
    assert(text[text.len() - 1] == ']');
    if inner.len() == 0 {
        assert(text =~= seq!['[', ']']);
        assert(text[1] == ']');
        reveal_with_fuel(leading_brackets, 3);
        assert(text.drop_first() =~= seq![']']);
        assert(text.drop_first().drop_first() =~= Seq::<char>::empty());
        assert(a == 2);
        assert(inner =~= Seq::empty());
    } else {
        assert(text[1] == inner[0]);
        assert(text[text.len() - 2] == inner[inner.len() - 1]);
        if a == 0 {
            assert(text[0] != '[');
        }
        if a > 1 {
            assert(text[1] == '[' || text[1] == ']');
        }
        assert(a == 1);
        if b == 0 {
            assert(text[text.len() - 1] != ']');
        }
        if b > 1 {
            assert(text[text.len() - 2] == '[' || text[text.len() - 2] == ']');
        }
        assert(b == 1);
        assert(text.subrange(1, text.len() - 1) =~= inner);
    }
}

/// A list that is written as a text and read back has the same items,
/// provided that it has an item at least and that its items can be written
/// plainly: none holds a comma or a bracket. (An empty list is written as
/// two brackets, which are read back as one empty item.)
pub proof fn lemma_list_round_trip(items: Seq<Seq<char>>)
    requires
        items.len() >= 1,
        forall|i: int| 0 <= i < items.len() ==> plain_item(#[trigger] items[i]),
    ensures
        list_items(list_text(items)) == items,
{
    lemma_joined_plain(items);
    lemma_trim_plain(joined_items(items));
    lemma_split_joined(items);
}

/// Numbers are plain items: a number in decimal digits holds digits, and a
/// minus sign at most.
pub proof fn lemma_numbers_are_plain(n: int)
    ensures
        plain_item(crate::text::signed_decimal(n)),
{
    let d = crate::text::signed_decimal(n);
    if n < 0 {
        crate::text::lemma_decimal_digits((-n) as nat);
        let digits = crate::text::decimal((-n) as nat);
        assert forall|i: int| 0 <= i < d.len() implies d[i] != ',' && d[i] != '[' && d[i]
            != ']' by {
            if i > 0 {
                assert(d[i] == digits[i - 1]);
            }
        }
    } else {
        crate::text::lemma_decimal_digits(n as nat);
    }
}

/// The numbers without sign as items of a list.
pub open spec fn natural_items(numbers: Seq<usize>) -> Seq<Seq<char>> {
    Seq::new(numbers.len(), |i: int| crate::text::decimal(numbers[i] as nat))
}

/// Writes numbers without sign as a list in brackets.
pub fn naturals_to_string(numbers: &Vec<usize>) -> (r: String)
    ensures
        r@ == list_text(natural_items(numbers@)),
{
    let mut r = String::new();
    push_char(&mut r, '[');
    let mut i: usize = 0;
    let ghost items = natural_items(numbers@);
    proof {
        assert(items.take(0) =~= Seq::empty());
        assert(r@ =~= seq!['['] + joined_items(items.take(0)));
    }
    while i < numbers.len()
        invariant
            i <= numbers@.len(),
            items == natural_items(numbers@),
            r@ == seq!['['] + joined_items(items.take(i as int)),
        decreases numbers@.len() - i,
    {
        let ghost before = r@;
        if i != 0 {
            push_char(&mut r, ',');
            push_char(&mut r, ' ');
        }
        crate::text::append_decimal(&mut r, numbers[i] as u64);
        proof {
            let done = items.take(i as int);
            let item = items[i as int];
            assert(items.take(i + 1) =~= done.push(item));
            if i == 0 {
                assert(done =~= Seq::empty());
                assert(done.push(item) =~= seq![item]);
                assert(r@ =~= seq!['['] + joined_items(items.take(i + 1)));
            } else {
                lemma_joined_push(done, item);
                assert(r@ =~= seq!['['] + joined_items(items.take(i + 1)));
            }
        }
        i = i + 1;
    }
    push_char(&mut r, ']');
    proof {
        assert(items.take(i as int) =~= items);
        assert(r@ =~= list_text(items));
    }
    r
}

/// The numbers that the first `n` items stand for, if each stands for
/// one.
pub open spec fn numbers_of(items: Seq<Seq<char>>, n: int) -> Option<Seq<i64>>
    decreases n,
{
    if n <= 0 {
        Some(Seq::empty())
    } else {
        match (numbers_of(items, n - 1), crate::text::parsed_i64(items[n - 1])) {
            (Some(before), Some(x)) => Some(before.push(x)),
            _ => None,
        }
    }
}

/// The numbers without sign that the first `n` items stand for, if each
/// stands for one that fits.
pub open spec fn naturals_of(items: Seq<Seq<char>>, n: int) -> Option<Seq<usize>>
    decreases n,
{
    if n <= 0 {
        Some(Seq::empty())
    } else {
        match (naturals_of(items, n - 1), crate::text::parsed_u64(items[n - 1])) {
            (Some(before), Some(x)) => if x <= usize::MAX {
                Some(before.push(x as usize))
            } else {
                None
            },
            _ => None,
        }
    }
}

/// Whether the items are those of a list without items: one item, which
/// is empty.
pub open spec fn no_items(items: Seq<Seq<char>>) -> bool {
    items.len() == 1 && items[0].len() == 0
}

/// The numbers that a list in brackets holds, if each of its items stands
/// for one.
pub open spec fn parsed_numbers(text: Seq<char>) -> Option<Seq<i64>> {
    let items = list_items(text);
    if no_items(items) {
        Some(Seq::empty())
    } else {
        numbers_of(items, items.len() as int)
    }
}

/// The numbers without sign that a list in brackets holds, if each of its
/// items stands for one that fits.
pub open spec fn parsed_naturals(text: Seq<char>) -> Option<Seq<usize>> {
    let items = list_items(text);
    if no_items(items) {
        Some(Seq::empty())
    } else {
        naturals_of(items, items.len() as int)
    }
}

proof fn lemma_numbers_of_none(items: Seq<Seq<char>>, n: int, m: int)
    requires
        0 <= n <= m,
        numbers_of(items, n).is_none(),
    ensures
        numbers_of(items, m).is_none(),
    decreases m,
{
    if n < m {
        lemma_numbers_of_none(items, n, m - 1);
    }
}

proof fn lemma_naturals_of_none(items: Seq<Seq<char>>, n: int, m: int)
    requires
        0 <= n <= m,
        naturals_of(items, n).is_none(),
    ensures
        naturals_of(items, m).is_none(),
    decreases m,
{
    if n < m {
        lemma_naturals_of_none(items, n, m - 1);
    }
}

/// Reads the numbers of a list in brackets.
pub fn string_to_numbers(text: &str) -> (r: Option<Vec<i64>>)
    ensures
        r.is_some() == parsed_numbers(text@).is_some(),
        r.is_some() ==> r.unwrap()@ == parsed_numbers(text@).unwrap(),
{
    let items = split_string(text);
    let ghost views = crate::config::strings_view(items@);
    let mut numbers: Vec<i64> = Vec::new();
    if items.len() == 1 && items[0].as_str().unicode_len() == 0 {
        assert(views[0] == items@[0]@);
        return Some(numbers);
    }
    proof {
        if items@.len() == 1 {
            assert(views[0] == items@[0]@);
        }
    }
    let mut i: usize = 0;
    while i < items.len()
        invariant
            i <= items@.len(),
            views == crate::config::strings_view(items@),
            views == list_items(text@),
            !no_items(views),
            numbers_of(views, i as int) == Some(numbers@),
        decreases items@.len() - i,
    {
        assert(views[i as int] == items@[i as int]@);
        match crate::text::parse_i64(items[i].as_str()) {
            Some(x) => {
                numbers.push(x);
            },
            None => {
                proof {
                    lemma_numbers_of_none(views, i + 1, views.len() as int);
                }
                return None;
            },
        }
        i = i + 1;
    }
    Some(numbers)
}

/// Reads the numbers without sign of a list in brackets.
pub fn string_to_naturals(text: &str) -> (r: Option<Vec<usize>>)
    ensures
        r.is_some() == parsed_naturals(text@).is_some(),
        r.is_some() ==> r.unwrap()@ == parsed_naturals(text@).unwrap(),
{
    let items = split_string(text);
    let ghost views = crate::config::strings_view(items@);
    let mut numbers: Vec<usize> = Vec::new();
    if items.len() == 1 && items[0].as_str().unicode_len() == 0 {
        assert(views[0] == items@[0]@);
        return Some(numbers);
    }
    proof {
        if items@.len() == 1 {
            assert(views[0] == items@[0]@);
        }
    }
    let mut i: usize = 0;
    while i < items.len()
        invariant
            i <= items@.len(),
            views == crate::config::strings_view(items@),
            views == list_items(text@),
            !no_items(views),
            naturals_of(views, i as int) == Some(numbers@),
        decreases items@.len() - i,
    {
        assert(views[i as int] == items@[i as int]@);
        match crate::text::parse_u64(items[i].as_str()) {
            Some(x) => {
                if x > usize::MAX as u64 {
                    proof {
                        lemma_naturals_of_none(views, i + 1, views.len() as int);
                    }
                    return None;
                }
                numbers.push(x as usize);
            },
            None => {
                proof {
                    lemma_naturals_of_none(views, i + 1, views.len() as int);
                }
                return None;
            },
        }
        i = i + 1;
    }
    Some(numbers)
}

proof fn lemma_numbers_of_items(numbers: Seq<i64>, n: int)
    requires
        0 <= n <= numbers.len(),
    ensures
        numbers_of(number_items(numbers), n) == Some(numbers.take(n)),
    decreases n,
{
    if n > 0 {
        lemma_numbers_of_items(numbers, n - 1);
        crate::text::lemma_number_round_trip(numbers[n - 1]);
        assert(numbers.take(n) =~= numbers.take(n - 1).push(numbers[n - 1]));
    } else {
        assert(numbers.take(0) =~= Seq::<i64>::empty());
    }
}

proof fn lemma_naturals_of_items(numbers: Seq<usize>, n: int)
    requires
        0 <= n <= numbers.len(),
    ensures
        naturals_of(natural_items(numbers), n) == Some(numbers.take(n)),
    decreases n,
{
    if n > 0 {
        lemma_naturals_of_items(numbers, n - 1);
        crate::text::lemma_unsigned_round_trip(numbers[n - 1] as u64);
        assert(numbers.take(n) =~= numbers.take(n - 1).push(numbers[n - 1]));
    } else {
        assert(numbers.take(0) =~= Seq::<usize>::empty());
    }
}

proof fn lemma_empty_list()
    ensures
        no_items(list_items(list_text(Seq::empty()))),
{
    let none = Seq::<Seq<char>>::empty();
    assert(joined_items(none) =~= Seq::<char>::empty());
    lemma_trim_plain(Seq::<char>::empty());
    assert(list_text(none) =~= seq!['['] + Seq::<char>::empty() + seq![']']);
    lemma_split_single_line(Seq::<char>::empty(), ',', ' ');
}

/// Numbers that are written as a list and read back are the same.
pub proof fn lemma_numbers_round_trip(numbers: Seq<i64>)
    ensures
        parsed_numbers(list_text(number_items(numbers))) == Some(numbers),
{
    let items = number_items(numbers);
    if numbers.len() == 0 {
        assert(items =~= Seq::<Seq<char>>::empty());
        lemma_empty_list();
        assert(numbers =~= Seq::<i64>::empty());
    } else {
        assert forall|i: int| 0 <= i < items.len() implies plain_item(#[trigger] items[i]) by {
            lemma_numbers_are_plain(numbers[i] as int);
        }
        lemma_list_round_trip(items);
        lemma_numbers_of_items(numbers, numbers.len() as int);
        assert(numbers.take(numbers.len() as int) =~= numbers);
        if numbers[0] < 0 {
            assert(items[0][0] == '-');
        } else {
            crate::text::lemma_decimal_digits(numbers[0] as nat);
        }
    }
}

/// Numbers without sign that are written as a list and read back are the
/// same.
pub proof fn lemma_naturals_round_trip(numbers: Seq<usize>)
    ensures
        parsed_naturals(list_text(natural_items(numbers))) == Some(numbers),
{
    let items = natural_items(numbers);
    if numbers.len() == 0 {
        assert(items =~= Seq::<Seq<char>>::empty());
        lemma_empty_list();
        assert(numbers =~= Seq::<usize>::empty());
    } else {
        assert forall|i: int| 0 <= i < items.len() implies plain_item(#[trigger] items[i]) by {
            lemma_numbers_are_plain(numbers[i] as int);
        }
        lemma_list_round_trip(items);
        lemma_naturals_of_items(numbers, numbers.len() as int);
        assert(numbers.take(numbers.len() as int) =~= numbers);
        crate::text::lemma_decimal_digits(numbers[0] as nat);
    }
}

} // verus!
