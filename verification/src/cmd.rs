//! What the commands decide before and after their input and output: the
//! checks on a new secret and alias, the choice of the password, the records
//! that `ls` shows, and the text of the OTP table.
use crate::codex::{alias_exists, codex_has_alias, codex_view};
use crate::models::{Record, RecordView, views};
use crate::text::{
    chars_of, contains_chars, contains_seq, decimal, extend_chars, has_char, join2, pad_chars,
    pad_right, remove_char, spec_to_lowercase, spec_to_uppercase, string_of, to_lowercase,
    to_uppercase, u64_to_decimal, without_char, is_ascii_upper_or_digit,
};
use vstd::prelude::*;
use vstd::utf8::encode_utf8;

verus! {

broadcast use vstd::string::group_string_axioms;

// ---------------------------------------------------------------------------
// Base32 secrets
// ---------------------------------------------------------------------------

/// What `data_encoding::BASE32_NOPAD.decode` gives for these bytes: the
/// decoded bytes, or the text of the `DecodeError`.
pub uninterp spec fn spec_base32_nopad_decode(input: Seq<u8>) -> Result<Seq<u8>, Seq<char>>;

/// `data_encoding::BASE32_NOPAD.decode`: RFC 4648 base32 without padding
/// (alphabet `A`-`Z`, `2`-`7`), with trailing bits checked. The decoding rules
/// are only named here; the result, and the error text (`DecodeError`'s
/// `Display`, "<kind> at <position>"), are a function of the input bytes. The
/// call asserts that the input is at most `usize::MAX / 8` bytes long. One
/// short fact is stated: the encoding has no padding and no ignored
/// characters, so an input that decodes holds only symbols of its alphabet.
#[verifier::external_body]
fn base32_nopad_decode(input: &[u8]) -> (r: Result<Vec<u8>, String>)
    requires
        input@.len() <= usize::MAX / 8,
    ensures
        match r {
            Ok(v) => spec_base32_nopad_decode(input@) == Ok::<Seq<u8>, Seq<char>>(v@),
            Err(e) => spec_base32_nopad_decode(input@) == Err::<Seq<u8>, Seq<char>>(e@),
        },
        r is Ok ==> forall|i: int| 0 <= i < input@.len() ==> is_base32_symbol(#[trigger] input@[i]),
{
    data_encoding::BASE32_NOPAD.decode(input).map_err(|e| e.to_string())
}

/// A symbol of the base32 alphabet: `A`-`Z`, `2`-`7`.
pub open spec fn is_base32_symbol(b: u8) -> bool {
    (65 <= b <= 90) || (50 <= b <= 55)
}

/// A text whose UTF-8 bytes are all below 0x80 is all ASCII.
pub proof fn lemma_ascii_bytes_ascii_chars(chars: Seq<char>)
    requires
        forall|i: int| 0 <= i < encode_utf8(chars).len() ==> #[trigger] encode_utf8(chars)[i] < 0x80,
    ensures
        vstd::utf8::is_ascii_chars(chars),
    decreases chars.len(),
{
    if chars.len() > 0 {
        let c = chars[0] as u32;
        vstd::utf8::char_is_scalar(chars[0]);
        let head = vstd::utf8::encode_scalar(c);
        let rest = chars.drop_first();
        assert(encode_utf8(chars) == head + encode_utf8(rest));
        assert(encode_utf8(chars)[0] == head[0]);
        if c >= 0x80 {
            if c <= 0x7ff {
                assert((0xC0u8 | ((c >> 6) & 0x1F) as u8) >= 0x80) by (bit_vector);
            } else if c <= 0xffff {
                assert((0xE0u8 | ((c >> 12) & 0x0F) as u8) >= 0x80) by (bit_vector);
            } else {
                assert((0xF0u8 | ((c >> 18) & 0x7) as u8) >= 0x80) by (bit_vector);
            }
        }
        assert(head.len() == 1);
        assert forall|i: int| 0 <= i < encode_utf8(rest).len() implies #[trigger] encode_utf8(rest)[i]
            < 0x80 by {
            assert(encode_utf8(rest)[i] == encode_utf8(chars)[i + 1]);
        }
        lemma_ascii_bytes_ascii_chars(rest);
        assert forall|i: int| 0 <= i < chars.len() implies '\0' <= #[trigger] chars[i] <= '\u{7f}' by {
            if i > 0 {
                assert(chars[i] == rest[i - 1]);
            } else {
                assert(c < 0x80);
                vstd::utf8::char_u32_cast(chars[0], c);
                assert(chars[0] == (c as char));
                assert(c as char <= '\u{7f}');
            }
        }
    }
}

/// A text whose UTF-8 bytes are base32 symbols is made of ASCII capitals and
/// digits, and holds no `=`.
pub proof fn lemma_base32_text(chars: Seq<char>)
    requires
        forall|i: int|
            0 <= i < encode_utf8(chars).len() ==> is_base32_symbol(#[trigger] encode_utf8(chars)[i]),
    ensures
        forall|i: int| 0 <= i < chars.len() ==> is_ascii_upper_or_digit(#[trigger] chars[i]),
        !chars.contains('='),
{
    assert forall|i: int| 0 <= i < encode_utf8(chars).len() implies #[trigger] encode_utf8(chars)[i]
        < 0x80 by {
        assert(is_base32_symbol(encode_utf8(chars)[i]));
    }
    lemma_ascii_bytes_ascii_chars(chars);
    vstd::utf8::is_ascii_chars_encode_utf8(chars);
    assert forall|i: int| 0 <= i < chars.len() implies is_ascii_upper_or_digit(#[trigger] chars[i]) by {
        let b = encode_utf8(chars)[i];
        let u = chars[i] as u32;
        assert(is_base32_symbol(b));
        assert(u < 128);
        assert(u as u8 == b);
        assert(u < 128 ==> (u as u8) as u32 == u) by (bit_vector);
    }
    if chars.contains('=') {
        let k = choose|k: int| 0 <= k < chars.len() && chars[k] == '=';
        assert(is_ascii_upper_or_digit(chars[k]));
    }
}

/// The secret that a user-typed code stands for: uppercased, without `=`.
pub open spec fn clean_code(code: Seq<char>) -> Seq<char> {
    without_char(spec_to_uppercase(code), '=')
}

/// What checking a code gives: the cleaned code when it decodes as base32,
/// the decoder's complaint otherwise.
pub open spec fn spec_sanitize(code: Seq<char>) -> Result<Seq<char>, Seq<char>> {
    let clean = clean_code(code);
    let bytes = vstd::utf8::encode_utf8(clean);
    if bytes.len() > usize::MAX / 8 {
        Err("Invalid Base32 code: input too long"@)
    } else {
        match spec_base32_nopad_decode(bytes) {
            Ok(_) => Ok(clean),
            Err(m) => Err("Invalid Base32 code: "@ + m),
        }
    }
}

/// The verdict on a cleaned code once the decoder has answered: the code when
/// it decoded, the decoder's complaint otherwise.
pub fn code_from_decoding(clean: String, decoded: &Result<Vec<u8>, String>) -> (r: Result<
    String,
    String,
>)
    ensures
        match *decoded {
            Ok(_) => r matches Ok(c) && c@ == clean@,
            Err(m) => r matches Err(e) && e@ == "Invalid Base32 code: "@ + m@,
        },
{
    match decoded {
        Ok(_) => Ok(clean),
        Err(m) => Err(join2("Invalid Base32 code: ", m.as_str())),
    }
}

/// Uppercases `code`, drops its `=` padding and checks that what is left is
/// valid unpadded base32; gives the cleaned code.
pub fn sanitize_and_validate_code(code: &str) -> (r: Result<String, String>)
    ensures
        match r {
            Ok(c) => spec_sanitize(code@) == Ok::<Seq<char>, Seq<char>>(c@),
            Err(e) => spec_sanitize(code@) == Err::<Seq<char>, Seq<char>>(e@),
        },
        r matches Ok(c) ==> spec_sanitize(c@) == Ok::<Seq<char>, Seq<char>>(c@),
{
    let upper = to_uppercase(code);
    let upper_chars = chars_of(upper.as_str());
    let clean_chars = remove_char(&upper_chars, '=');
    let clean = string_of(&clean_chars);
    let bytes = clean.as_str().as_bytes();
    if bytes.len() > usize::MAX / 8 {
        return Err("Invalid Base32 code: input too long".to_owned());
    }
    let decoded = base32_nopad_decode(bytes);
    if decoded.is_ok() {
        // An accepted code is made of base32 symbols, which uppercasing leaves
        // as they are: checking it again gives it back.
        proof {
            lemma_base32_text(clean@);
        }
        let again = to_uppercase(clean.as_str());
        proof {
            assert(again@ == clean@);
            crate::text::lemma_without_char_free(clean@, '=');
        }
    }
    code_from_decoding(clean, &decoded)
}

// ---------------------------------------------------------------------------
// Passwords
// ---------------------------------------------------------------------------

/// The password to use without asking: the one given on the command line,
/// else the one from the environment. `None` means that the user must be
/// asked.
pub fn effective_password(given: &Option<String>, from_env: Option<String>) -> (r: Option<
    String,
>)
    ensures
        match *given {
            Some(p) => r matches Some(q) && q@ == p@,
            None => r == from_env,
        },
{
    match given {
        Some(p) => Some(p.clone()),
        None => from_env,
    }
}

// ---------------------------------------------------------------------------
// Adding and updating
// ---------------------------------------------------------------------------

/// What the checks before adding `alias` with `code` give: the cleaned code,
/// or the first failing check (the code, a `:` in the alias, the alias
/// taken).
pub open spec fn spec_validate_add(
    alias: Seq<char>,
    code: Seq<char>,
    codex: Result<Seq<RecordView>, Seq<char>>,
) -> Result<Seq<char>, Seq<char>> {
    match spec_sanitize(code) {
        Err(e) => Err(e),
        Ok(clean) => if alias.contains(':') {
            Err("Error: Alias cannot contain ':'"@)
        } else if codex_has_alias(codex, alias) {
            Err("Error: Alias '"@ + alias + "' already exists."@)
        } else {
            Ok(clean)
        },
    }
}

/// The checks before a new record is added: gives the cleaned secret. The
/// codex is `Err` when the file is missing or unreadable.
pub fn validate_add(alias: &str, code: &str, codex: &Result<Vec<Record>, String>) -> (r: Result<
    String,
    String,
>)
    ensures
        match r {
            Ok(c) => spec_validate_add(alias@, code@, codex_view(*codex)) == Ok::<
                Seq<char>,
                Seq<char>,
            >(c@),
            Err(e) => spec_validate_add(alias@, code@, codex_view(*codex)) == Err::<
                Seq<char>,
                Seq<char>,
            >(e@),
        },
{
    let clean = sanitize_and_validate_code(code)?;
    let alias_chars = chars_of(alias);
    if has_char(&alias_chars, ':') {
        return Err("Error: Alias cannot contain ':'".to_owned());
    }
    if alias_exists(alias, codex) {
        return Err(crate::text::join3("Error: Alias '", alias, "' already exists."));
    }
    Ok(clean)
}

/// What the checks before updating the code of `alias` give: the cleaned
/// code, or the first failing check (the code, the alias missing).
pub open spec fn spec_validate_update(
    alias: Seq<char>,
    code: Seq<char>,
    codex: Result<Seq<RecordView>, Seq<char>>,
) -> Result<Seq<char>, Seq<char>> {
    match spec_sanitize(code) {
        Err(e) => Err(e),
        Ok(clean) => if !codex_has_alias(codex, alias) {
            Err("No record for '"@ + alias + "' found."@)
        } else {
            Ok(clean)
        },
    }
}

/// The checks before the code of a record is replaced: gives the cleaned
/// secret.
pub fn validate_update(alias: &str, new_code: &str, codex: &Result<Vec<Record>, String>) -> (r:
    Result<String, String>)
    ensures
        match r {
            Ok(c) => spec_validate_update(alias@, new_code@, codex_view(*codex)) == Ok::<
                Seq<char>,
                Seq<char>,
            >(c@),
            Err(e) => spec_validate_update(alias@, new_code@, codex_view(*codex)) == Err::<
                Seq<char>,
                Seq<char>,
            >(e@),
        },
        r matches Ok(c) ==> spec_sanitize(c@) == Ok::<Seq<char>, Seq<char>>(c@),
{
    let clean = sanitize_and_validate_code(new_code)?;
    if !alias_exists(alias, codex) {
        return Err(crate::text::join3("No record for '", alias, "' found."));
    }
    Ok(clean)
}

// ---------------------------------------------------------------------------
// Listing
// ---------------------------------------------------------------------------

/// Whether a record of alias `alias` is shown for the search `filter`: the
/// lowercased alias equals the lowercased filter (exact search) or holds it
/// (partial search).
pub open spec fn alias_matches(alias: Seq<char>, filter: Seq<char>, exact: bool) -> bool {
    if exact {
        spec_to_lowercase(alias) == spec_to_lowercase(filter)
    } else {
        contains_seq(spec_to_lowercase(alias), spec_to_lowercase(filter))
    }
}

/// Whether a record is shown: every record without a search, the matching
/// ones with one.
pub open spec fn is_shown(r: RecordView, filter: Option<Seq<char>>, exact: bool) -> bool {
    match filter {
        None => true,
        Some(f) => alias_matches(r.alias, f, exact),
    }
}

/// The message when no record is shown.
pub open spec fn msg_nothing_shown(filter: Option<Seq<char>>, exact: bool) -> Seq<char> {
    match filter {
        Some(f) => if exact {
            "No record found with exact alias '"@ + f + "'"@
        } else {
            "No records found matching '"@ + f + "'"@
        },
        None => "No records found"@,
    }
}

/// The records that `ls` shows, by position, and whether a password is
/// needed to show them.
#[derive(Debug)]
pub struct Listing {
    pub selected: Vec<usize>,
    pub needs_password: bool,
}

/// The view of an optional string.
pub open spec fn opt_view(o: Option<String>) -> Option<Seq<char>> {
    match o {
        Some(s) => Some(s@),
        None => None,
    }
}

/// Chooses the records to list: those that the search selects, in their
/// order, and whether a password is needed (some of them is encrypted and
/// `is_unencrypt` was not given); an error when none is selected.
pub fn ls(records: &Vec<Record>, alias_filter: &Option<String>, is_unencrypt: bool, exact_match: bool)
    -> (r: Result<Listing, String>)
    ensures
        match r {
            Ok(l) => {
                &&& l.selected@.len() > 0
                &&& forall|k: int, m: int|
                    0 <= k < m < l.selected@.len() ==> #[trigger] l.selected@[k]
                        < #[trigger] l.selected@[m]
                &&& forall|k: int|
                    0 <= k < l.selected@.len() ==> #[trigger] l.selected@[k] < records@.len()
                &&& forall|i: int|
                    0 <= i < records@.len() ==> (l.selected@.contains(i as usize) <==> is_shown(
                        #[trigger] records@[i]@,
                        opt_view(*alias_filter),
                        exact_match,
                    ))
                &&& l.needs_password == (!is_unencrypt && exists|k: int|
                    0 <= k < l.selected@.len() && !records@[#[trigger] l.selected@[k] as int].is_unencrypted)
            },
            Err(e) => {
                &&& forall|i: int|
                    0 <= i < records@.len() ==> !is_shown(
                        #[trigger] records@[i]@,
                        opt_view(*alias_filter),
                        exact_match,
                    )
                &&& e@ == msg_nothing_shown(opt_view(*alias_filter), exact_match)
            },
        },
{
    let filter_chars: Option<Vec<char>> = match alias_filter {
        Some(f) => {
            let lower = to_lowercase(f.as_str());
            Some(chars_of(lower.as_str()))
        },
        None => None,
    };
    let mut selected: Vec<usize> = Vec::new();
    let mut needs_password = false;
    let mut i: usize = 0;
    while i < records.len()
        invariant
            i <= records.len(),
            match *alias_filter {
                Some(f) => filter_chars matches Some(fc) && fc@ == spec_to_lowercase(f@),
                None => filter_chars is None,
            },
            forall|k: int, m: int|
                0 <= k < m < selected@.len() ==> #[trigger] selected@[k] < #[trigger] selected@[m],
            forall|k: int| 0 <= k < selected@.len() ==> #[trigger] selected@[k] < i,
            forall|j: int|
                0 <= j < i ==> (selected@.contains(j as usize) <==> is_shown(
                    #[trigger] records@[j]@,
                    opt_view(*alias_filter),
                    exact_match,
                )),
            needs_password == (!is_unencrypt && exists|k: int|
                0 <= k < selected@.len() && !records@[#[trigger] selected@[k] as int].is_unencrypted),
        decreases records.len() - i,
    {
        let shown = match &filter_chars {
            None => true,
            Some(fc) => {
                let lower = to_lowercase(records[i].alias.as_str());
                let alias_chars = chars_of(lower.as_str());
                if exact_match {
                    alias_chars.len() == fc.len() && contains_chars(&alias_chars, fc)
                } else {
                    contains_chars(&alias_chars, fc)
                }
            },
        };
        proof {
            if exact_match && filter_chars is Some {
                let fc = filter_chars->Some_0;
                let a = spec_to_lowercase(records@[i as int].alias@);
                if a.len() == fc@.len() && contains_seq(a, fc@) {
                    let t = choose|t: int| crate::text::occurs_at(a, fc@, t);
                    assert(a.subrange(t, t + fc@.len()) =~= a);
                }
                if a == fc@ {
                    assert(a.subrange(0, a.len() as int) =~= a);
                    assert(crate::text::occurs_at(a, fc@, 0));
                }
            }
        }
        let ghost old_selected = selected@;
        let ghost old_needs = needs_password;
        if shown {
            selected.push(i);
            if !is_unencrypt && !records[i].is_unencrypted {
                needs_password = true;
            }
            proof {
                assert(selected@[selected@.len() - 1] == i);
                assert forall|k: int|
                    0 <= k < old_selected.len() implies #[trigger] selected@[k]
                    == old_selected[k] by {}
                if old_needs {
                    let k = choose|k: int|
                        0 <= k < old_selected.len() && !records@[#[trigger] old_selected[k] as int].is_unencrypted;
                    assert(selected@[k] == old_selected[k]);
                }
                if !is_unencrypt && (exists|k: int|
                    0 <= k < selected@.len() && !records@[#[trigger] selected@[k] as int].is_unencrypted) {
                    let k = choose|k: int|
                        0 <= k < selected@.len() && !records@[#[trigger] selected@[k] as int].is_unencrypted;
                    if k < old_selected.len() {
                        assert(old_selected[k] == selected@[k]);
                    }
                }
            }
        }
        proof {
            assert forall|j: int| 0 <= j <= i implies (selected@.contains(j as usize)
                <==> is_shown(#[trigger] records@[j]@, opt_view(*alias_filter), exact_match)) by {
                if j < i {
                    if old_selected.contains(j as usize) {
                        let k = choose|k: int| 0 <= k < old_selected.len() && old_selected[k] == j as usize;
                        assert(selected@[k] == j as usize);
                    }
                    if selected@.contains(j as usize) {
                        let k = choose|k: int| 0 <= k < selected@.len() && selected@[k] == j as usize;
                        if k < old_selected.len() {
                            assert(old_selected[k] == j as usize);
                        }
                    }
                } else {
                    if shown {
                        assert(selected@[selected@.len() - 1] == i);
                    } else {
                        if selected@.contains(j as usize) {
                            // every position chosen so far is below `i`
                            let k = choose|k: int| 0 <= k < selected@.len() && selected@[k] == j as usize;
                            assert(selected@[k] < i);
                        }
                    }
                }
            }
        }
        i = i + 1;
    }
    if selected.len() == 0 {
        let e = match alias_filter {
            Some(f) => if exact_match {
                crate::text::join3("No record found with exact alias '", f.as_str(), "'")
            } else {
                crate::text::join3("No records found matching '", f.as_str(), "'")
            },
            None => "No records found".to_owned(),
        };
        return Err(e);
    }
    let l = Listing { selected, needs_password };
    proof {
        // the witnesses of the loop carry over to the returned listing
        if l.needs_password {
            let k = choose|k: int|
                0 <= k < l.selected@.len() && !records@[#[trigger] l.selected@[k] as int].is_unencrypted;
            assert(!records@[l.selected@[k] as int].is_unencrypted);
        }
        if !is_unencrypt && exists|k: int|
            0 <= k < l.selected@.len() && !records@[#[trigger] l.selected@[k] as int].is_unencrypted {
            let k = choose|k: int|
                0 <= k < l.selected@.len() && !records@[#[trigger] l.selected@[k] as int].is_unencrypted;
            assert(l.needs_password) by {
                assert(!records@[l.selected@[k] as int].is_unencrypted);
            }
        }
    }
    Ok(l)
}

// ---------------------------------------------------------------------------
// The OTP table
// ---------------------------------------------------------------------------

/// The seconds left in the current 30-second OTP period at `now` (Unix
/// seconds): from 30 at the start of a period down to 1 at its end.
pub fn seconds_left_in_period(now: u64) -> (r: u64)
    ensures
        r == 30 - now % 30,
        1 <= r <= 30,
{
    30 - now % 30
}

/// The number of `#` in the progress bar for `rem` seconds remaining.
pub open spec fn bar_filled(rem: u64) -> nat {
    let safe = if rem < 30 {
        rem as nat
    } else {
        30nat
    };
    (safe * 20 / 30) as nat
}

/// The progress bar for `rem` seconds remaining: 20 cells between brackets,
/// `#` for the time left in the 30-second period, `.` for the rest.
pub open spec fn spec_progress_bar(rem: u64) -> Seq<char> {
    seq!['['] + Seq::new(bar_filled(rem), |_i: int| '#') + Seq::new(
        (20 - bar_filled(rem)) as nat,
        |_i: int| '.',
    ) + seq![']']
}

/// The progress bar for `rem` seconds remaining.
pub fn progress_bar(rem: u64) -> (s: String)
    ensures
        s@ == spec_progress_bar(rem),
{
    let safe: u64 = if rem < 30 {
        rem
    } else {
        30
    };
    let filled: u64 = safe * 20 / 30;
    let mut v: Vec<char> = Vec::new();
    v.push('[');
    let mut k: u64 = 0;
    while k < filled
        invariant
            k <= filled <= 20,
            filled == bar_filled(rem),
            v@ == seq!['['] + Seq::new(k as nat, |_i: int| '#'),
        decreases filled - k,
    {
        v.push('#');
        k = k + 1;
        assert(v@ =~= seq!['['] + Seq::new(k as nat, |_i: int| '#'));
    }
    let ghost head = v@;
    while k < 20
        invariant
            filled <= k <= 20,
            filled == bar_filled(rem),
            head == seq!['['] + Seq::new(filled as nat, |_i: int| '#'),
            v@ == head + Seq::new((k - filled) as nat, |_i: int| '.'),
        decreases 20 - k,
    {
        v.push('.');
        k = k + 1;
        assert(v@ =~= head + Seq::new((k - filled) as nat, |_i: int| '.'));
    }
    v.push(']');
    assert(v@ =~= spec_progress_bar(rem));
    string_of(&v)
}

/// The remaining seconds as the table writes them: the number, then `s`,
/// padded to 3 characters.
pub open spec fn rem_cell(rem: u64) -> Seq<char> {
    pad_right(decimal(rem as nat).push('s'), 3, ' ')
}

/// The line under a single OTP: the bar, the remaining seconds, "remaining".
pub open spec fn spec_status_line(bar: Seq<char>, rem: u64) -> Seq<char> {
    bar + seq![' '] + rem_cell(rem) + " remaining"@
}

/// One row of the OTP table.
pub open spec fn spec_table_row(alias: Seq<char>, otp: Seq<char>, rem: u64, bar: Seq<char>) -> Seq<
    char,
> {
    pad_right(alias, 15, ' ') + " | "@ + pad_right(otp, 10, ' ') + " | "@ + rem_cell(rem) + seq![
        ' ',
    ] + bar
}

/// The first line of the OTP table.
pub open spec fn spec_table_header() -> Seq<char> {
    pad_right("Alias"@, 15, ' ') + " | "@ + pad_right("OTP"@, 10, ' ') + " | "@ + pad_right(
        "Rem"@,
        4,
        ' ',
    )
}

/// The rule under the header of the OTP table.
pub open spec fn spec_table_rule() -> Seq<char> {
    Seq::new(15, |_i: int| '-') + "-|-"@ + Seq::new(10, |_i: int| '-') + "-|-"@ + Seq::new(
        4,
        |_i: int| '-',
    )
}

/// The cell of the remaining seconds.
fn rem_cell_chars(rem: u64) -> (v: Vec<char>)
    ensures
        v@ == rem_cell(rem),
{
    let d = u64_to_decimal(rem);
    let mut v = chars_of(d.as_str());
    v.push('s');
    pad_chars(&mut v, 3, ' ');
    v
}

/// The line under a single OTP.
pub fn status_line(bar: &str, rem: u64) -> (s: String)
    ensures
        s@ == spec_status_line(bar@, rem),
{
    let mut v = chars_of(bar);
    v.push(' ');
    let cell = rem_cell_chars(rem);
    let mut k: usize = 0;
    let ghost head = v@;
    while k < cell.len()
        invariant
            k <= cell.len(),
            v@ == head + cell@.take(k as int),
        decreases cell.len() - k,
    {
        v.push(cell[k]);
        k = k + 1;
        assert(v@ =~= head + cell@.take(k as int));
    }
    assert(cell@.take(cell.len() as int) =~= cell@);
    extend_chars(&mut v, " remaining");
    string_of(&v)
}

/// Appends the characters of `w` to `v`.
fn append_chars(v: &mut Vec<char>, w: &Vec<char>)
    ensures
        final(v)@ == old(v)@ + w@,
{
    let mut k: usize = 0;
    while k < w.len()
        invariant
            k <= w.len(),
            v@ == old(v)@ + w@.take(k as int),
        decreases w.len() - k,
    {
        v.push(w[k]);
        k = k + 1;
        assert(v@ =~= old(v)@ + w@.take(k as int));
    }
    assert(w@.take(w.len() as int) =~= w@);
}

/// One row of the OTP table.
pub fn table_row(alias: &str, otp: &str, rem: u64, bar: &str) -> (s: String)
    ensures
        s@ == spec_table_row(alias@, otp@, rem, bar@),
{
    let mut v = chars_of(alias);
    pad_chars(&mut v, 15, ' ');
    extend_chars(&mut v, " | ");
    let mut o = chars_of(otp);
    pad_chars(&mut o, 10, ' ');
    append_chars(&mut v, &o);
    extend_chars(&mut v, " | ");
    let cell = rem_cell_chars(rem);
    append_chars(&mut v, &cell);
    v.push(' ');
    extend_chars(&mut v, bar);
    string_of(&v)
}

/// The header line and the rule of the OTP table.
pub fn table_header() -> (lines: (String, String))
    ensures
        lines.0@ == spec_table_header(),
        lines.1@ == spec_table_rule(),
{
    let mut h = chars_of("Alias");
    pad_chars(&mut h, 15, ' ');
    extend_chars(&mut h, " | ");
    let mut o = chars_of("OTP");
    pad_chars(&mut o, 10, ' ');
    append_chars(&mut h, &o);
    extend_chars(&mut h, " | ");
    let mut r = chars_of("Rem");
    pad_chars(&mut r, 4, ' ');
    append_chars(&mut h, &r);
    let mut rule: Vec<char> = Vec::new();
    pad_chars(&mut rule, 15, '-');
    extend_chars(&mut rule, "-|-");
    let mut mid: Vec<char> = Vec::new();
    pad_chars(&mut mid, 10, '-');
    append_chars(&mut rule, &mid);
    extend_chars(&mut rule, "-|-");
    let mut last: Vec<char> = Vec::new();
    pad_chars(&mut last, 4, '-');
    append_chars(&mut rule, &last);
    assert(pad_right(Seq::<char>::empty(), 15, '-') =~= Seq::new(15, |_i: int| '-'));
    assert(pad_right(Seq::<char>::empty(), 10, '-') =~= Seq::new(10, |_i: int| '-'));
    assert(pad_right(Seq::<char>::empty(), 4, '-') =~= Seq::new(4, |_i: int| '-'));
    (string_of(&h), string_of(&rule))
}

/// What the OTP table prints: lines for standard output, and a line for
/// standard error.
#[derive(Debug)]
pub struct TableOutput {
    pub stdout: Vec<String>,
    pub stderr: Option<String>,
}

/// How many lines the OTP table prints on standard output and on standard
/// error for `n_rows` rows: one OTP line, plus the status line unless
/// `quiet`, for a search of one alias that found one record; otherwise the
/// header, the rule and one line per row, and nothing on standard error.
pub open spec fn spec_output_lines(n_rows: nat, is_single_alias: bool, quiet: bool) -> (nat, nat) {
    if is_single_alias && n_rows == 1 {
        (1, if quiet {
            0
        } else {
            1
        })
    } else {
        (n_rows + 2, 0)
    }
}

/// The lines that show `rows` (alias, OTP) with `rem` seconds remaining: the
/// OTP alone (with the bar and the remaining seconds on standard error unless
/// `quiet`) for a search of one alias that found one record, a table
/// otherwise; `quiet` leaves the bar out.
pub fn table_output(rows: &Vec<(String, String)>, rem: u64, is_single_alias: bool, quiet: bool) -> (out:
    TableOutput)
    ensures
        ({
            let bar = if quiet {
                Seq::<char>::empty()
            } else {
                spec_progress_bar(rem)
            };
            if is_single_alias && rows@.len() == 1 {
                &&& out.stdout@.len() == 1
                &&& out.stdout@[0]@ == rows@[0].1@
                &&& if quiet {
                    out.stderr is None
                } else {
                    out.stderr matches Some(l) && l@ == spec_status_line(bar, rem)
                }
            } else {
                &&& out.stdout@.len() == rows@.len() + 2
                &&& out.stdout@[0]@ == spec_table_header()
                &&& out.stdout@[1]@ == spec_table_rule()
                &&& forall|k: int|
                    0 <= k < rows@.len() ==> #[trigger] out.stdout@[k + 2]@ == spec_table_row(
                        rows@[k].0@,
                        rows@[k].1@,
                        rem,
                        bar,
                    )
                &&& out.stderr is None
            }
        }),
        (out.stdout@.len(), if out.stderr is Some {
            1nat
        } else {
            0nat
        }) == spec_output_lines(rows@.len(), is_single_alias, quiet),
{
    let bar = if quiet {
        String::new()
    } else {
        progress_bar(rem)
    };
    if is_single_alias && rows.len() == 1 {
        let mut stdout: Vec<String> = Vec::new();
        stdout.push(rows[0].1.clone());
        let stderr = if quiet {
            None
        } else {
            Some(status_line(bar.as_str(), rem))
        };
        return TableOutput { stdout, stderr };
    }
    let (header, rule) = table_header();
    let mut stdout: Vec<String> = Vec::new();
    stdout.push(header);
    stdout.push(rule);
    let mut k: usize = 0;
    while k < rows.len()
        invariant
            k <= rows.len(),
            stdout@.len() == k + 2,
            stdout@[0]@ == spec_table_header(),
            stdout@[1]@ == spec_table_rule(),
            bar@ == (if quiet {
                Seq::<char>::empty()
            } else {
                spec_progress_bar(rem)
            }),
            forall|j: int|
                0 <= j < k ==> #[trigger] stdout@[j + 2]@ == spec_table_row(
                    rows@[j].0@,
                    rows@[j].1@,
                    rem,
                    bar@,
                ),
        decreases rows.len() - k,
    {
        let line = table_row(rows[k].0.as_str(), rows[k].1.as_str(), rem, bar.as_str());
        stdout.push(line);
        k = k + 1;
    }
    TableOutput { stdout, stderr: None }
}

// ---------------------------------------------------------------------------
// Laws of the commands
// ---------------------------------------------------------------------------

/// A checked code holds no `=`.
pub proof fn lemma_clean_code_unpadded(code: Seq<char>)
    ensures
        spec_sanitize(code) matches Ok(c) ==> !c.contains('='),
{
    crate::text::lemma_without_char_absent(spec_to_uppercase(code), '=');
}

/// Once the checks before an update pass, removing the old record succeeds,
/// and the checks before adding the cleaned code under the alias pass on what
/// is left (for an alias without `:`): the update runs to its end. The
/// cleaned code passing its check again is what `validate_update` ensures of
/// the code it returns.
pub proof fn lemma_update_completes(
    alias: Seq<char>,
    code: Seq<char>,
    clean: Seq<char>,
    rs: Seq<RecordView>,
)
    requires
        spec_validate_update(alias, code, Ok(rs)) == Ok::<Seq<char>, Seq<char>>(clean),
        spec_sanitize(clean) == Ok::<Seq<char>, Seq<char>>(clean),
        !alias.contains(':'),
    ensures
        crate::codex::spec_remove(rs, alias) is Ok,
        !codex_has_alias(Ok(crate::codex::spec_remove(rs, alias)->Ok_0), alias),
        spec_validate_add(alias, clean, Ok(crate::codex::spec_remove(rs, alias)->Ok_0)) == Ok::<
            Seq<char>,
            Seq<char>,
        >(clean),
{
    crate::codex::lemma_remove_law(rs, alias);
}

/// The search ignores case: aliases with the same lowercase form are shown
/// alike.
pub proof fn lemma_search_ignores_case(a1: Seq<char>, a2: Seq<char>, filter: Seq<char>, exact: bool)
    requires
        spec_to_lowercase(a1) == spec_to_lowercase(a2),
    ensures
        alias_matches(a1, filter, exact) == alias_matches(a2, filter, exact),
{
}

/// A record that the exact search shows, the partial search shows too.
pub proof fn lemma_exact_within_partial(alias: Seq<char>, filter: Seq<char>)
    ensures
        alias_matches(alias, filter, true) ==> alias_matches(alias, filter, false),
{
    let a = spec_to_lowercase(alias);
    if alias_matches(alias, filter, true) {
        assert(a.subrange(0, a.len() as int) =~= a);
        assert(crate::text::occurs_at(a, spec_to_lowercase(filter), 0));
    }
}

/// The progress bar always has 20 cells between brackets, and the more time
/// remains, the more of them are filled.
pub proof fn lemma_progress_bar_law(rem1: u64, rem2: u64)
    ensures
        spec_progress_bar(rem1).len() == 22,
        spec_progress_bar(rem1)[0] == '[',
        spec_progress_bar(rem1)[21] == ']',
        bar_filled(rem1) <= 20,
        rem1 <= rem2 ==> bar_filled(rem1) <= bar_filled(rem2),
{
    let s1: nat = if rem1 < 30 { rem1 as nat } else { 30 };
    let s2: nat = if rem2 < 30 { rem2 as nat } else { 30 };
    assert(s1 * 20 / 30 <= 20) by (nonlinear_arith)
        requires
            s1 <= 30,
    ;
    assert(s1 <= s2 ==> s1 * 20 / 30 <= s2 * 20 / 30) by (nonlinear_arith);
}

/// What the search of `ls` shows, stated over the characters: a partial
/// search shows a record exactly when the lowercased filter occurs at some
/// position of the lowercased alias, an exact search exactly when the two
/// lowercased texts are equal; no search shows every record.
pub proof fn lemma_search_law(r: RecordView, filter: Seq<char>)
    ensures
        is_shown(r, None, true) && is_shown(r, None, false),
        is_shown(r, Some(filter), false) <==> exists|i: int|
            0 <= i && i + spec_to_lowercase(filter).len() <= spec_to_lowercase(r.alias).len()
                && #[trigger] spec_to_lowercase(r.alias).subrange(
                i,
                i + spec_to_lowercase(filter).len(),
            ) == spec_to_lowercase(filter),
        is_shown(r, Some(filter), true) <==> spec_to_lowercase(r.alias) == spec_to_lowercase(
            filter,
        ),
{
    let a = spec_to_lowercase(r.alias);
    let f = spec_to_lowercase(filter);
    if is_shown(r, Some(filter), false) {
        let i = choose|i: int| crate::text::occurs_at(a, f, i);
        assert(a.subrange(i, i + f.len()) == f);
    }
    if exists|i: int| 0 <= i && i + f.len() <= a.len() && #[trigger] a.subrange(i, i + f.len()) == f {
        let i = choose|i: int| 0 <= i && i + f.len() <= a.len() && #[trigger] a.subrange(i, i + f.len()) == f;
        assert(crate::text::occurs_at(a, f, i));
    }
}

} // verus!
