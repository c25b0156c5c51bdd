//! The clipboard text, and how much of it is kept.

use vstd::prelude::*;

verus! {

/// Longest clipboard text that is kept, in bytes (256 KiB).
pub const CLIPBOARD_TEXT_CAP: usize = 262_144;

/// Bytes that the first `k` characters take up in UTF-8.
pub open spec fn prefix_bytes(s: Seq<char>, k: nat) -> nat {
    vstd::utf8::encode_utf8(s.take(k as int)).len()
}

/// How many of the first `n` characters fit in `cap` bytes.
pub open spec fn fitting(s: Seq<char>, n: nat, cap: nat) -> nat
    decreases n,
{
    if n == 0 || prefix_bytes(s, n) <= cap {
        n
    } else {
        fitting(s, (n - 1) as nat, cap)
    }
}

/// The longest prefix of a text that fits in the clipboard.
pub open spec fn capped(s: Seq<char>) -> Seq<char> {
    s.take(fitting(s, s.len(), CLIPBOARD_TEXT_CAP as nat) as int)
}

proof fn lemma_encode_concat(a: Seq<char>, b: Seq<char>)
    ensures
        vstd::utf8::encode_utf8(a + b) == vstd::utf8::encode_utf8(a) + vstd::utf8::encode_utf8(b),
    decreases a.len(),
{
    if a.len() == 0 {
        assert(a + b =~= b);
        assert(vstd::utf8::encode_utf8(a) + vstd::utf8::encode_utf8(b) =~= vstd::utf8::encode_utf8(
            b,
        ));
    } else {
        lemma_encode_concat(a.drop_first(), b);
        assert((a + b).drop_first() =~= a.drop_first() + b);
        let head = vstd::utf8::encode_scalar(a[0] as u32);
        assert(head + (vstd::utf8::encode_utf8(a.drop_first()) + vstd::utf8::encode_utf8(b)) =~= (
        head + vstd::utf8::encode_utf8(a.drop_first())) + vstd::utf8::encode_utf8(b));
    }
}

/// Each character takes up at least one byte.
proof fn lemma_prefix_grows(s: Seq<char>, k: nat, n: nat)
    requires
        k <= n <= s.len(),
    ensures
        prefix_bytes(s, k) <= prefix_bytes(s, n),
        k < n ==> prefix_bytes(s, k) < prefix_bytes(s, n),
{
    let rest = s.subrange(k as int, n as int);
    assert(s.take(n as int) =~= s.take(k as int) + rest);
    lemma_encode_concat(s.take(k as int), rest);
    if k < n {
        assert(vstd::utf8::encode_utf8(rest) == vstd::utf8::encode_scalar(rest[0] as u32)
            + vstd::utf8::encode_utf8(rest.drop_first()));
    }
}

proof fn lemma_prefix_is_boundary(s: Seq<char>, k: nat)
    requires
        k <= s.len(),
    ensures
        vstd::utf8::is_char_boundary(vstd::utf8::encode_utf8(s), prefix_bytes(s, k) as int),
    decreases k,
{
    let bytes = vstd::utf8::encode_utf8(s);
    vstd::utf8::encode_utf8_valid_utf8(s);
    if k == 0 {
        assert(s.take(0) =~= Seq::<char>::empty());
        vstd::utf8::is_char_boundary_start_end_of_seq(bytes);
    } else {
        let rest = s.drop_first();
        vstd::utf8::encode_utf8_first_scalar(s);
        assert(vstd::utf8::pop_first_scalar(bytes) =~= vstd::utf8::encode_utf8(rest));
        lemma_prefix_is_boundary(rest, (k - 1) as nat);
        assert(s.take(k as int).drop_first() =~= rest.take(k - 1));
        assert(s.take(k as int)[0] == s[0]);
        lemma_prefix_grows(s, k, s.len());
        assert(s.take(s.len() as int) =~= s);
        lemma_prefix_grows(s, 0, k);
    }
}

/// A prefix that fits, where the next longer one does not, is the one kept.
proof fn lemma_fitting_is(s: Seq<char>, k: nat, n: nat, cap: nat)
    requires
        k <= n <= s.len(),
        prefix_bytes(s, k) <= cap,
        k < s.len() ==> prefix_bytes(s, k + 1) > cap,
    ensures
        fitting(s, n, cap) == k,
    decreases n,
{
    if n > k {
        lemma_prefix_grows(s, k + 1, n);
        lemma_fitting_is(s, k, (n - 1) as nat, cap);
    }
}

/// Cuts a text to what the clipboard keeps, between two characters.
pub fn cap_clipboard_text(text: String) -> (r: String)
    ensures
        r@ == capped(text@),
{
    let ghost s = text@;
    let ghost bytes = vstd::utf8::encode_utf8(s);
    let view = text.as_str();
    assert(s.take(s.len() as int) =~= s);
    if view.as_bytes().len() <= CLIPBOARD_TEXT_CAP {
        return text;
    }
    proof {
        vstd::utf8::encode_utf8_valid_utf8(s);
        vstd::utf8::is_char_boundary_start_end_of_seq(bytes);
    }
    let mut end: usize = CLIPBOARD_TEXT_CAP;
    while end > 0 && !view.is_char_boundary(end)
        invariant
            end <= CLIPBOARD_TEXT_CAP,
            bytes == vstd::utf8::encode_utf8(view@),
            vstd::utf8::is_char_boundary(bytes, 0),
            forall|e: int| end < e <= CLIPBOARD_TEXT_CAP ==> !vstd::utf8::is_char_boundary(bytes, e),
        decreases end,
    {
        end = end - 1;
    }
    let (front, back) = view.split_at(end);
    let r = front.to_owned();
    proof {
        let k = front@.len();
        vstd::utf8::decode_utf8_split(bytes, end as int);
        vstd::utf8::encode_utf8_decode_utf8(s);
        vstd::utf8::encode_utf8_decode_utf8(front@);
        vstd::utf8::encode_utf8_decode_utf8(back@);
        assert(s =~= front@ + back@);
        assert(s.take(k as int) =~= front@);
        if k < s.len() {
            lemma_prefix_is_boundary(s, k + 1);
            lemma_prefix_grows(s, k, k + 1);
        }
        lemma_fitting_is(s, k, s.len(), CLIPBOARD_TEXT_CAP as nat);
    }
    r
}

proof fn lemma_fitting(s: Seq<char>, n: nat, cap: nat)
    requires
        n <= s.len(),
    ensures
        fitting(s, n, cap) <= n,
        prefix_bytes(s, fitting(s, n, cap)) <= cap,
    decreases n,
{
    if n == 0 {
        assert(s.take(0) =~= Seq::<char>::empty());
    } else if prefix_bytes(s, n) > cap {
        lemma_fitting(s, (n - 1) as nat, cap);
    }
}

/// What is kept of a text is the start of it and fits in the clipboard.
pub proof fn law_capped_text_fits(s: Seq<char>)
    ensures
        capped(s).len() <= s.len(),
        capped(s) == s.take(capped(s).len() as int),
        vstd::utf8::encode_utf8(capped(s)).len() <= CLIPBOARD_TEXT_CAP,
{
    lemma_fitting(s, s.len(), CLIPBOARD_TEXT_CAP as nat);
}

/// A text that fits in the clipboard is kept whole.
pub proof fn law_fitting_text_is_kept(s: Seq<char>)
    requires
        vstd::utf8::encode_utf8(s).len() <= CLIPBOARD_TEXT_CAP,
    ensures
        capped(s) == s,
{
    assert(s.take(s.len() as int) =~= s);
}

/// Cutting a text a second time changes nothing.
pub proof fn law_capping_twice(s: Seq<char>)
    ensures
        capped(capped(s)) == capped(s),
{
    law_capped_text_fits(s);
    law_fitting_text_is_kept(capped(s));
}

/// Nothing more could have been kept: with one more character, the text would
/// no longer fit.
pub proof fn law_capped_text_is_longest(s: Seq<char>)
    requires
        capped(s) != s,
    ensures
        capped(s).len() < s.len(),
        prefix_bytes(s, capped(s).len() + 1) > CLIPBOARD_TEXT_CAP,
{
    assert(s.take(s.len() as int) =~= s);
    lemma_fitting(s, s.len(), CLIPBOARD_TEXT_CAP as nat);
    lemma_next_does_not_fit(s, s.len(), CLIPBOARD_TEXT_CAP as nat);
}

proof fn lemma_next_does_not_fit(s: Seq<char>, n: nat, cap: nat)
    requires
        n <= s.len(),
    ensures
        fitting(s, n, cap) < n ==> prefix_bytes(s, fitting(s, n, cap) + 1) > cap,
    decreases n,
{
    if n > 0 && prefix_bytes(s, n) > cap {
        lemma_next_does_not_fit(s, (n - 1) as nat, cap);
        lemma_fitting(s, (n - 1) as nat, cap);
    }
}

/// Holds the clipboard text.
#[derive(Debug)]
pub struct ClipboardManager {
    pub text: String,
}

impl ClipboardManager {
    /// An empty clipboard.
    pub fn new() -> (r: Self)
        ensures
            r.text@ == Seq::<char>::empty(),
    {
        ClipboardManager { text: String::new() }
    }

    /// The text as it is now.
    pub fn get_text(&self) -> (r: String)
        ensures
            r@ == self.text@,
    {
        self.text.clone()
    }

    /// A client has set the clipboard. Returns the text kept, which the desktop
    /// has to be told.
    pub fn set_from_client(&mut self, new_text: String) -> (kept: String)
        ensures
            kept@ == capped(new_text@),
            final(self).text@ == capped(new_text@),
    {
        let kept = cap_clipboard_text(new_text);
        self.text = kept.clone();
        kept
    }

    /// The desktop has set the clipboard. Returns the text kept, which the
    /// clients have to be told.
    pub fn set_from_server(&mut self, new_text: String) -> (kept: String)
        ensures
            kept@ == capped(new_text@),
            final(self).text@ == capped(new_text@),
    {
        let kept = cap_clipboard_text(new_text);
        self.text = kept.clone();
        kept
    }
}

impl Default for ClipboardManager {
    fn default() -> (r: Self)
        ensures
            r.text@ == Seq::<char>::empty(),
    {
        ClipboardManager::new()
    }
}

/// The clipboard holds 256 KiB: text of up to that many bytes is kept whole, longer
/// text up to that size, short of it by less than the next character.
pub proof fn law_clipboard_holds_256_kib(s: Seq<char>)
    ensures
        ({
            let bytes = vstd::utf8::encode_utf8(s).len();
            let kept = vstd::utf8::encode_utf8(capped(s)).len();
            &&& bytes <= 256 * 1024 ==> capped(s) == s
            &&& kept <= 256 * 1024
            &&& bytes > 256 * 1024 ==> capped(s).len() < s.len() && vstd::utf8::encode_utf8(
                s.take(capped(s).len() as int + 1),
            ).len() > 256 * 1024
            &&& capped(s) == s.take(capped(s).len() as int)
        }),
{
    law_capped_text_fits(s);
    if vstd::utf8::encode_utf8(s).len() <= 256 * 1024 {
        law_fitting_text_is_kept(s);
    } else {
        law_capped_text_is_longest(s);
    }
}

} // verus!
