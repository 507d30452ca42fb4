//! The per-session handle registry: numeric tokens, rendered in decimal,
//! mapped to the state of an open directory or file.

use vstd::prelude::*;

use crate::backend::copy_bytes;
use crate::text::same_text;

verus! {

broadcast use vstd::std_specs::hash::group_hash_axioms;

/// The decimal digit `d` (below ten).
pub open spec fn digit_char(d: nat) -> char {
    if d == 0 {
        '0'
    } else if d == 1 {
        '1'
    } else if d == 2 {
        '2'
    } else if d == 3 {
        '3'
    } else if d == 4 {
        '4'
    } else if d == 5 {
        '5'
    } else if d == 6 {
        '6'
    } else if d == 7 {
        '7'
    } else if d == 8 {
        '8'
    } else {
        '9'
    }
}

/// The value of an ASCII decimal digit.
pub open spec fn digit_value(c: char) -> Option<nat> {
    if '0' <= c && c <= '9' {
        Some((c as nat - '0' as nat) as nat)
    } else {
        None
    }
}

/// The decimal rendering of `n`, without leading zeros.
pub open spec fn decimal(n: nat) -> Seq<char>
    decreases n,
{
    if n < 10 {
        seq![digit_char(n)]
    } else {
        decimal(n / 10).push(digit_char(n % 10))
    }
}

/// Whether every character of `s` is a decimal digit.
pub open spec fn all_digits(s: Seq<char>) -> bool {
    forall|i: int| 0 <= i < s.len() ==> (#[trigger] digit_value(s[i])) is Some
}

/// The number written by the decimal digits `s`.
pub open spec fn digits_value(s: Seq<char>) -> nat
    decreases s.len(),
{
    if s.len() == 0 {
        0
    } else {
        digits_value(s.drop_last()) * 10 + match digit_value(s.last()) {
            Some(v) => v,
            None => 0,
        }
    }
}

/// The unsigned 64-bit number that `s` writes: an optional `+`, then one or
/// more decimal digits, of a value that fits.
pub open spec fn parse_u64(s: Seq<char>) -> Option<u64> {
    let d = if s.len() > 0 && s[0] == '+' {
        s.drop_first()
    } else {
        s
    };
    if d.len() > 0 && all_digits(d) && digits_value(d) <= u64::MAX {
        Some(digits_value(d) as u64)
    } else {
        None
    }
}

proof fn lemma_digit_char_value(d: nat)
    requires
        d < 10,
    ensures
        digit_value(digit_char(d)) == Some(d),
{
}

/// A decimal rendering is all digits and writes the number it renders.
pub proof fn lemma_decimal_digits(n: nat)
    ensures
        decimal(n).len() > 0,
        all_digits(decimal(n)),
        digits_value(decimal(n)) == n,
        decimal(n)[0] != '+',
    decreases n,
{
    if n < 10 {
        lemma_digit_char_value(n);
        assert(decimal(n).drop_last() =~= Seq::<char>::empty());
        assert(digits_value(Seq::<char>::empty()) == 0);
        assert(decimal(n).last() == digit_char(n));
    } else {
        lemma_decimal_digits(n / 10);
        lemma_digit_char_value(n % 10);
        vstd::arithmetic::div_mod::lemma_fundamental_div_mod(n as int, 10);
        let s = decimal(n);
        assert(s.drop_last() =~= decimal(n / 10));
        assert forall|i: int| 0 <= i < s.len() implies (#[trigger] digit_value(s[i])) is Some by {
            if i < s.len() - 1 {
                assert(s[i] == decimal(n / 10)[i]);
            }
        }
        assert(s[0] == decimal(n / 10)[0]);
        assert(s.last() == digit_char(n % 10));
        assert(digits_value(s) == digits_value(decimal(n / 10)) * 10 + n % 10);
    }
}

/// Parsing the decimal rendering of a number gives the number back.
pub proof fn lemma_parse_decimal(n: u64)
    ensures
        parse_u64(decimal(n as nat)) == Some(n),
{
    lemma_decimal_digits(n as nat);
}

/// Distinct numbers have distinct decimal renderings.
pub proof fn lemma_decimal_injective(a: u64, b: u64)
    requires
        a != b,
    ensures
        decimal(a as nat) != decimal(b as nat),
{
    lemma_parse_decimal(a);
    lemma_parse_decimal(b);
}

/// The one-character string of digit `d`.
fn digit_str(d: u64) -> (r: &'static str)
    requires
        d < 10,
    ensures
        r@ == seq![digit_char(d as nat)],
{
    proof {
        reveal_strlit("0");
        reveal_strlit("1");
        reveal_strlit("2");
        reveal_strlit("3");
        reveal_strlit("4");
        reveal_strlit("5");
        reveal_strlit("6");
        reveal_strlit("7");
        reveal_strlit("8");
        reveal_strlit("9");
    }
    let r = if d == 0 {
        "0"
    } else if d == 1 {
        "1"
    } else if d == 2 {
        "2"
    } else if d == 3 {
        "3"
    } else if d == 4 {
        "4"
    } else if d == 5 {
        "5"
    } else if d == 6 {
        "6"
    } else if d == 7 {
        "7"
    } else if d == 8 {
        "8"
    } else {
        "9"
    };
    assert(r@ =~= seq![digit_char(d as nat)]);
    r
}

/// The decimal rendering of `n`.
pub fn render_decimal(n: u64) -> (r: String)
    ensures
        r@ == decimal(n as nat),
    decreases n,
{
    if n < 10 {
        String::from_str(digit_str(n))
    } else {
        let mut s = render_decimal(n / 10);
        s.append(digit_str(n % 10));
        assert(s@ =~= decimal(n as nat));
        s
    }
}

/// The unsigned 64-bit number that `s` writes, as `str::parse` reads it.
pub fn parse_decimal(s: &str) -> (r: Option<u64>)
    ensures
        r == parse_u64(s@),
{
    let n = s.unicode_len();
    let start: usize = if n > 0 && s.get_char(0) == '+' {
        1
    } else {
        0
    };
    let ghost d = if s@.len() > 0 && s@[0] == '+' {
        s@.drop_first()
    } else {
        s@
    };
    assert(d =~= s@.skip(start as int));
    if start == n {
        return None;
    }
    let mut acc: u64 = 0;
    let mut i: usize = start;
    while i < n
        invariant
            n == s@.len(),
            start <= i <= n,
            start < n,
            d == s@.skip(start as int),
            d == (if s@.len() > 0 && s@[0] == '+' {
                s@.drop_first()
            } else {
                s@
            }),
            all_digits(s@.subrange(start as int, i as int)),
            acc == digits_value(s@.subrange(start as int, i as int)),
        decreases n - i,
    {
        let c = s.get_char(i);
        let ghost pre = s@.subrange(start as int, i as int);
        let ghost next = s@.subrange(start as int, i + 1);
        assert(next.drop_last() =~= pre);
        assert(next.last() == c);
        if c < '0' || c > '9' {
            assert(!all_digits(d)) by {
                assert(d[i - start] == c);
                assert(digit_value(d[i - start]) is None);
            }
            assert(parse_u64(s@) is None);
            return None;
        }
        let v = (c as u32 - '0' as u32) as u64;
        assert(digit_value(c) == Some(v as nat));
        if acc > (u64::MAX - v) / 10 {
            assert(digits_value(d) > u64::MAX) by {
                assert(digits_value(next) == acc * 10 + v);
                assert(acc * 10 + v > u64::MAX) by (nonlinear_arith)
                    requires
                        acc > (u64::MAX - v) / 10,
                        v <= 9,
                ;
                lemma_digits_value_grows(d, (i + 1 - start) as int);
                assert(d.take((i + 1 - start) as int) =~= next);
            }
            assert(parse_u64(s@) is None);
            return None;
        }
        assert(acc * 10 + v <= u64::MAX) by (nonlinear_arith)
            requires
                acc <= (u64::MAX - v) / 10,
                v <= 9,
        ;
        acc = acc * 10 + v;
        assert forall|j: int| 0 <= j < next.len() implies (#[trigger] digit_value(next[j])) is Some by {
            if j < pre.len() {
                assert(next[j] == pre[j]);
            }
        }
        i = i + 1;
    }
    assert(s@.subrange(start as int, n as int) =~= d);
    Some(acc)
}

/// Reading more digits never gives a smaller number.
proof fn lemma_digits_value_grows(s: Seq<char>, k: int)
    requires
        0 <= k <= s.len(),
    ensures
        digits_value(s) >= digits_value(s.take(k)),
    decreases s.len(),
{
    if k < s.len() {
        lemma_digits_value_grows(s.drop_last(), k);
        assert(s.drop_last().take(k) =~= s.take(k));
    } else {
        assert(s.take(k) =~= s);
    }
}


/// The state behind one handle.
#[derive(Debug, Clone, PartialEq, Eq)]
pub enum HandleType {
    /// A directory iterator, done after its first read.
    Dir { path: String, read_done: bool },
    /// A file opened for reading, with the content loaded at open time.
    Read { path: String, content: Vec<u8> },
    /// A file opened for writing, with the bytes written so far.
    Write { path: String, buffer: Vec<u8> },
}

/// The abstract state behind one handle.
pub enum HandleView {
    Dir { path: Seq<char>, read_done: bool },
    Read { path: Seq<char>, content: Seq<u8> },
    Write { path: Seq<char>, buffer: Seq<u8> },
}

impl View for HandleType {
    type V = HandleView;

    open spec fn view(&self) -> HandleView {
        match self {
            HandleType::Dir { path, read_done } => HandleView::Dir { path: path@, read_done: *read_done },
            HandleType::Read { path, content } => HandleView::Read { path: path@, content: content@ },
            HandleType::Write { path, buffer } => HandleView::Write { path: path@, buffer: buffer@ },
        }
    }
}

impl HandleType {
    /// A copy of this handle state.
    pub fn duplicate(&self) -> (r: HandleType)
        ensures
            r@ == self@,
    {
        match self {
            HandleType::Dir { path, read_done } => HandleType::Dir {
                path: path.clone(),
                read_done: *read_done,
            },
            HandleType::Read { path, content } => HandleType::Read {
                path: path.clone(),
                content: copy_bytes(content),
            },
            HandleType::Write { path, buffer } => HandleType::Write {
                path: path.clone(),
                buffer: copy_bytes(buffer),
            },
        }
    }
}

/// The number a token names: the one whose decimal rendering the token is,
/// spelled exactly as tokens are issued (no sign, no leading zeros).
pub open spec fn token_id(token: Seq<char>) -> Option<u64> {
    match parse_u64(token) {
        Some(id) => if decimal(id as nat) == token {
            Some(id)
        } else {
            None
        },
        None => None,
    }
}

/// The entry that `token` names in `table`: none when the token is not the
/// exact decimal rendering of a number, or names no entry.
pub open spec fn lookup(table: Map<u64, HandleView>, token: Seq<char>) -> Option<HandleView> {
    match token_id(token) {
        Some(id) => if table.contains_key(id) {
            Some(table[id])
        } else {
            None
        },
        None => None,
    }
}

/// `table` with the entry that `token` names replaced by `v`; unchanged
/// when the token names no entry.
pub open spec fn updated(table: Map<u64, HandleView>, token: Seq<char>, v: HandleView) -> Map<u64, HandleView> {
    match token_id(token) {
        Some(id) => if table.contains_key(id) {
            table.insert(id, v)
        } else {
            table
        },
        None => table,
    }
}

/// `table` without the entry that `token` names.
pub open spec fn removed(table: Map<u64, HandleView>, token: Seq<char>) -> Map<u64, HandleView> {
    match token_id(token) {
        Some(id) => table.remove(id),
        None => table,
    }
}

/// The tokens of the numbers from 1 up to, not including, `n`.
pub open spec fn tokens_below(n: nat) -> Set<Seq<char>> {
    Set::new(|t: Seq<char>| exists|id: nat| 1 <= id < n && t == decimal(id))
}

/// The token of `n` is not among those below it, and adding it gives the
/// tokens below `n + 1`.
pub proof fn lemma_tokens_below_step(n: nat)
    requires
        1 <= n <= u64::MAX,
    ensures
        !tokens_below(n).contains(decimal(n)),
        tokens_below(n + 1) == tokens_below(n).insert(decimal(n)),
{
    if tokens_below(n).contains(decimal(n)) {
        let id = choose|id: nat| 1 <= id < n && decimal(n) == decimal(id);
        lemma_decimal_injective(id as u64, n as u64);
    }
    assert(tokens_below(n + 1) =~= tokens_below(n).insert(decimal(n))) by {
        assert forall|t: Seq<char>| tokens_below(n + 1).contains(t) implies tokens_below(n).insert(
            decimal(n),
        ).contains(t) by {
            let id = choose|id: nat| 1 <= id < n + 1 && t == decimal(id);
            if id < n {
                assert(tokens_below(n).contains(t));
            }
        }
        assert forall|t: Seq<char>| tokens_below(n).insert(decimal(n)).contains(t) implies tokens_below(
            n + 1,
        ).contains(t) by {
            if t != decimal(n) {
                let id = choose|id: nat| 1 <= id < n && t == decimal(id);
                assert(1 <= id < n + 1 && t == decimal(id));
            } else {
                assert(1 <= n < n + 1 && t == decimal(n));
            }
        }
    }
}

/// The number `token` names, spelled exactly as issued.
fn token_number(token: &str) -> (r: Option<u64>)
    ensures
        r == token_id(token@),
{
    let id = parse_decimal(token)?;
    let canonical = render_decimal(id);
    if same_text(canonical.as_str(), token) {
        Some(id)
    } else {
        None
    }
}

/// The handles of one session. Tokens are the decimal renderings of a
/// counter that starts at 1 and only grows, so no token is issued twice;
/// a token names a handle only when spelled exactly as it was issued.
pub struct HandleManager {
    handles: std::collections::HashMap<u64, HandleType>,
    /// How many handles have been created; the next gets number `created + 1`.
    created: u64,
}

impl HandleManager {
    /// The open handles by number.
    pub closed spec fn table(&self) -> Map<u64, HandleView> {
        self.handles@.map_values(|h: HandleType| h@)
    }

    /// The number the next created handle gets.
    pub closed spec fn next_id(&self) -> nat {
        self.created as nat + 1
    }

    /// The token the next created handle gets.
    pub open spec fn next_token(&self) -> Seq<char> {
        decimal(self.next_id())
    }

    /// Numbers start at 1.
    pub proof fn lemma_next_id_positive(&self)
        ensures
            self.next_id() >= 1,
    {
    }

    /// Every token this registry has issued: the counter starts at 1 and
    /// each created handle takes the next number.
    pub open spec fn issued_tokens(&self) -> Set<Seq<char>> {
        tokens_below(self.next_id())
    }

    /// An empty registry.
    pub fn new() -> (r: HandleManager)
        ensures
            r.table() == Map::<u64, HandleView>::empty(),
            r.next_id() == 1,
            r.issued_tokens() == Set::<Seq<char>>::empty(),
    {
        let r = HandleManager { handles: std::collections::HashMap::new(), created: 0 };
        assert(r.table() =~= Map::<u64, HandleView>::empty());
        assert(r.issued_tokens() =~= Set::<Seq<char>>::empty());
        r
    }

    /// Whether another handle can be created: numbers run out at `u64::MAX`.
    pub fn can_create(&self) -> (r: bool)
        ensures
            r == (self.next_id() < u64::MAX),
    {
        self.created < u64::MAX - 1
    }

    /// Stores `h` under a fresh number and returns its token.
    pub(crate) fn create(&mut self, h: HandleType) -> (r: String)
        requires
            old(self).next_id() < u64::MAX,
        ensures
            r@ == old(self).next_token(),
            !old(self).issued_tokens().contains(r@),
            final(self).issued_tokens() == old(self).issued_tokens().insert(r@),
            final(self).next_id() == old(self).next_id() + 1,
            final(self).table() == old(self).table().insert(old(self).next_id() as u64, h@),
    {
        let id = self.created + 1;
        proof {
            lemma_tokens_below_step(id as nat);
        }
        self.created = id;
        let ghost hv = h@;
        self.handles.insert(id, h);
        assert(self.table() =~= old(self).table().insert(id, hv));
        render_decimal(id)
    }

    /// Opens a directory handle on `path`, not yet read.
    pub fn create_dir_handle(&mut self, path: String) -> (r: String)
        requires
            old(self).next_id() < u64::MAX,
        ensures
            r@ == old(self).next_token(),
            !old(self).issued_tokens().contains(r@),
            final(self).issued_tokens() == old(self).issued_tokens().insert(r@),
            final(self).next_id() == old(self).next_id() + 1,
            final(self).table() == old(self).table().insert(
                old(self).next_id() as u64,
                HandleView::Dir { path: path@, read_done: false },
            ),
    {
        self.create(HandleType::Dir { path, read_done: false })
    }

    /// Opens a read handle on `path` serving `content`.
    pub fn create_read_handle(&mut self, path: String, content: Vec<u8>) -> (r: String)
        requires
            old(self).next_id() < u64::MAX,
        ensures
            r@ == old(self).next_token(),
            !old(self).issued_tokens().contains(r@),
            final(self).issued_tokens() == old(self).issued_tokens().insert(r@),
            final(self).next_id() == old(self).next_id() + 1,
            final(self).table() == old(self).table().insert(
                old(self).next_id() as u64,
                HandleView::Read { path: path@, content: content@ },
            ),
    {
        self.create(HandleType::Read { path, content })
    }

    /// Opens a write handle on `path` with an empty buffer.
    pub fn create_write_handle(&mut self, path: String) -> (r: String)
        requires
            old(self).next_id() < u64::MAX,
        ensures
            r@ == old(self).next_token(),
            !old(self).issued_tokens().contains(r@),
            final(self).issued_tokens() == old(self).issued_tokens().insert(r@),
            final(self).next_id() == old(self).next_id() + 1,
            final(self).table() == old(self).table().insert(
                old(self).next_id() as u64,
                HandleView::Write { path: path@, buffer: Seq::empty() },
            ),
    {
        self.create(HandleType::Write { path, buffer: Vec::new() })
    }

    /// A copy of the state behind `handle`, if it names one.
    pub fn get(&self, handle: &str) -> (r: Option<HandleType>)
        ensures
            match r {
                Some(h) => lookup(self.table(), handle@) == Some(h@),
                None => lookup(self.table(), handle@) is None,
            },
    {
        let id = token_number(handle)?;
        match self.handles.get(&id) {
            Some(h) => Some(h.duplicate()),
            None => None,
        }
    }

    /// Replaces the state behind `handle`, when it names an open handle.
    pub fn update(&mut self, handle: &str, data: HandleType)
        ensures
            final(self).table() == updated(old(self).table(), handle@, data@),
            final(self).next_id() == old(self).next_id(),
    {
        if let Some(id) = token_number(handle) {
            if self.handles.contains_key(&id) {
                let ghost hv = data@;
                self.handles.insert(id, data);
                assert(self.table() =~= old(self).table().insert(id, hv));
            }
        }
    }

    /// Takes out the state behind `handle`, if it names one.
    pub fn remove(&mut self, handle: &str) -> (r: Option<HandleType>)
        ensures
            match r {
                Some(h) => lookup(old(self).table(), handle@) == Some(h@),
                None => lookup(old(self).table(), handle@) is None,
            },
            final(self).table() == removed(old(self).table(), handle@),
            final(self).next_id() == old(self).next_id(),
    {
        match token_number(handle) {
            Some(id) => {
                let r = self.handles.remove(&id);
                assert(self.table() =~= old(self).table().remove(id));
                r
            },
            None => None,
        }
    }
}

impl Default for HandleManager {
    fn default() -> (r: HandleManager)
        ensures
            r.table() == Map::<u64, HandleView>::empty(),
            r.next_id() == 1,
            r.issued_tokens() == Set::<Seq<char>>::empty(),
    {
        HandleManager::new()
    }
}

/// Handle tokens are never issued twice: the token a registry issues next
/// is none of those it issued before.
pub proof fn lemma_tokens_unique(m: HandleManager)
    requires
        m.next_id() <= u64::MAX,
    ensures
        !m.issued_tokens().contains(m.next_token()),
{
    m.lemma_next_id_positive();
    lemma_tokens_below_step(m.next_id());
}

/// A token spelled otherwise than as issued (with a sign, leading zeros,
/// or anything but digits) names no handle.
pub proof fn lemma_unissued_spelling_unknown(table: Map<u64, HandleView>, token: Seq<char>)
    requires
        forall|id: u64| decimal(id as nat) != token,
    ensures
        lookup(table, token) is None,
{
}

} // verus!
