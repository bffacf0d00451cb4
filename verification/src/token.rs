//! Signed tokens: three dot-separated segments.

use vstd::prelude::*;
use vstd::string::*;

use crate::algorithm::{classify, AlgorithmKind};
use crate::jose::{decode_header_algorithm, header_algorithm};

verus! {

/// A token taken apart into its three segments.
#[derive(Clone, Debug, PartialEq, Eq)]
pub struct Token {
    header_segment: String,
    claims_segment: String,
    signature_segment: String,
}

/// The three segments of a token as sequences of characters.
pub struct TokenView {
    pub header: Seq<char>,
    pub claims: Seq<char>,
    pub signature: Seq<char>,
}

impl View for Token {
    type V = TokenView;

    closed spec fn view(&self) -> TokenView {
        TokenView {
            header: self.header_segment@,
            claims: self.claims_segment@,
            signature: self.signature_segment@,
        }
    }
}

impl Token {
    /// The header segment, as it stood in the token.
    pub fn header_segment(&self) -> (s: &str)
        ensures
            s@ == self@.header,
    {
        self.header_segment.as_str()
    }

    /// The claims segment, as it stood in the token.
    pub fn claims_segment(&self) -> (s: &str)
        ensures
            s@ == self@.claims,
    {
        self.claims_segment.as_str()
    }

    /// The signature segment, as it stood in the token.
    pub fn signature_segment(&self) -> (s: &str)
        ensures
            s@ == self@.signature,
    {
        self.signature_segment.as_str()
    }

    /// The text that the signature is computed over: the header segment, a
    /// dot, and the claims segment.
    pub fn signing_input(&self) -> (s: String)
        ensures
            s@ == self@.signing_input(),
    {
        let mut s = self.header_segment.clone();
        s.append(".");
        s.append(self.claims_segment.as_str());
        proof {
            reveal_strlit(".");
            assert("."@ =~= seq!['.']);
        }
        s
    }
}

/// True when no character of `s` is a dot.
pub open spec fn dot_free(s: Seq<char>) -> bool {
    forall|i: int| 0 <= i < s.len() ==> s[i] != '.'
}

/// True when `i` is where the first dot of `text` stands, or the length of
/// `text` where it holds no dot.
pub open spec fn is_first_dot(text: Seq<char>, i: int) -> bool {
    &&& 0 <= i <= text.len()
    &&& dot_free(text.take(i))
    &&& i < text.len() ==> text[i] == '.'
}

/// The place of the first dot of `text`, or its length where it holds none.
pub open spec fn first_dot(text: Seq<char>) -> int {
    choose|i: int| is_first_dot(text, i)
}

/// The pieces of `text` between its dots, in order. A text without a dot is
/// its own single piece, and a dot at either end bounds an empty piece.
pub open spec fn segments(text: Seq<char>) -> Seq<Seq<char>>
    decreases text.len(),
{
    let i = first_dot(text);
    if 0 <= i < text.len() {
        seq![text.take(i)] + segments(text.skip(i + 1))
    } else {
        seq![text]
    }
}

/// Where the first dots of a text stand: how many were seen, up to three,
/// and their places, together with the length of the text in characters.
struct DotScan {
    length: usize,
    dots: u8,
    first: usize,
    second: usize,
    third: usize,
}

impl DotScan {
    spec fn describes(self, text: Seq<char>) -> bool {
        &&& self.dots <= 3
        &&& self.length == text.len()
        &&& self.dots == 0 ==> dot_free(text)
        &&& self.dots >= 1 ==> self.first < text.len() && is_first_dot(text, self.first as int)
        &&& self.dots == 1 ==> dot_free(text.skip(self.first + 1))
        &&& self.dots >= 2 ==> self.first < self.second < text.len() && is_first_dot(
            text.skip(self.first + 1),
            self.second - self.first - 1,
        )
        &&& self.dots == 2 ==> dot_free(text.skip(self.second + 1))
        &&& self.dots == 3 ==> self.second < self.third < text.len() && is_first_dot(
            text.skip(self.second + 1),
            self.third - self.second - 1,
        )
    }
}

fn scan_dots(text: &str) -> (scan: DotScan)
    ensures
        scan.describes(text@),
{
    let n: usize = text.unicode_len();
    let mut scan = DotScan { length: n, dots: 0, first: 0, second: 0, third: 0 };
    let mut i: usize = 0;
    let chars = text.chars();
    for c in it: chars
        invariant
            it.seq() == text@,
            i == it.index(),
            n == text@.len(),
            scan.length == n,
            scan.dots <= 2,
            scan.dots == 0 ==> dot_free(text@.take(i as int)),
            scan.dots >= 1 ==> scan.first < i && is_first_dot(text@, scan.first as int),
            scan.dots == 1 ==> dot_free(text@.skip(scan.first + 1).take(i - scan.first - 1)),
            scan.dots == 2 ==> scan.first < scan.second < i && is_first_dot(
                text@.skip(scan.first + 1),
                scan.second - scan.first - 1,
            ) && dot_free(text@.skip(scan.second + 1).take(i - scan.second - 1)),
    {
        if c == '.' {
            if scan.dots == 0 {
                scan.first = i;
            } else if scan.dots == 1 {
                scan.second = i;
            } else {
                scan.dots = 3;
                scan.third = i;
                assert(text@.skip(scan.second + 1)[i - scan.second - 1] == '.');
                return scan;
            }
            scan.dots = scan.dots + 1;
        }
        i = i + 1;
    }
    proof {
        assert(text@.take(i as int) =~= text@);
        if scan.dots >= 1 {
            let rest = text@.skip(scan.first + 1);
            assert(rest.take(i - scan.first - 1) =~= rest);
        }
        if scan.dots == 2 {
            let rest = text@.skip(scan.second + 1);
            assert(rest.take(i - scan.second - 1) =~= rest);
        }
    }
    scan
}

/// What keeps a text from being a token.
#[derive(Clone, Copy, Debug, PartialEq, Eq, Structural)]
pub enum TokenDefect {
    /// The text is empty or begins with a dot.
    MissingHeader,
    /// No second segment follows the header, or it is empty.
    MissingClaims,
    /// No third segment follows the claims, or it is empty.
    MissingSignature,
    /// A fourth segment follows the signature.
    ExtraSegment,
}

/// Why a text was not parsed.
#[derive(Clone, Copy, Debug, PartialEq, Eq, Structural)]
pub enum ParseError {
    /// The text is not three non-empty segments.
    MalformedToken(TokenDefect),
    /// The header segment does not decode to a header with a known algorithm.
    MalformedHeader,
}

impl TokenView {
    /// A token is three segments, none empty and none holding a dot.
    pub open spec fn well_formed(self) -> bool {
        &&& self.header.len() > 0 && dot_free(self.header)
        &&& self.claims.len() > 0 && dot_free(self.claims)
        &&& self.signature.len() > 0 && dot_free(self.signature)
    }

    /// The text that the signature is computed over: header, dot, claims.
    pub open spec fn signing_input(self) -> Seq<char> {
        self.header + seq!['.'] + self.claims
    }

    /// The token as text: signing input, dot, signature.
    pub open spec fn text(self) -> Seq<char> {
        self.signing_input() + seq!['.'] + self.signature
    }
}

/// The first reason, in the order header, claims, signature, surplus, for
/// which `text` is not a token, or `None` where it is one.
pub open spec fn defect(text: Seq<char>) -> Option<TokenDefect> {
    let parts = segments(text);
    if parts[0].len() == 0 {
        Some(TokenDefect::MissingHeader)
    } else if parts.len() < 2 || parts[1].len() == 0 {
        Some(TokenDefect::MissingClaims)
    } else if parts.len() < 3 || parts[2].len() == 0 {
        Some(TokenDefect::MissingSignature)
    } else if parts.len() > 3 {
        Some(TokenDefect::ExtraSegment)
    } else {
        None
    }
}

/// The token whose segments are the first three pieces of `text`.
pub open spec fn token_of(text: Seq<char>) -> TokenView {
    let parts = segments(text);
    TokenView { header: parts[0], claims: parts[1], signature: parts[2] }
}

/// The first dot stands where a dot follows a dot-free prefix, and nowhere
/// else.
pub proof fn lemma_first_dot(text: Seq<char>, i: int)
    requires
        is_first_dot(text, i),
    ensures
        first_dot(text) == i,
{
    let j = first_dot(text);
    assert(is_first_dot(text, j));
    if j < i {
        assert(text.take(i)[j] == '.');
    }
    if i < j {
        assert(text.take(j)[i] == '.');
    }
}

/// A text without a dot is its own single segment.
pub proof fn lemma_segments_dot_free(text: Seq<char>)
    requires
        dot_free(text),
    ensures
        segments(text) == seq![text],
{
    assert(text.take(text.len() as int) =~= text);
    lemma_first_dot(text, text.len() as int);
}

/// A text with its first dot at `i` is the piece before it, followed by the
/// segments of what comes after the dot.
pub proof fn lemma_segments_at_dot(text: Seq<char>, i: int)
    requires
        is_first_dot(text, i),
        i < text.len(),
    ensures
        segments(text) == seq![text.take(i)] + segments(text.skip(i + 1)),
{
    lemma_first_dot(text, i);
}

/// Every text has at least one segment.
pub proof fn lemma_segments_nonempty(text: Seq<char>)
    ensures
        segments(text).len() >= 1,
    decreases text.len(),
{
    let i = first_dot(text);
    if 0 <= i < text.len() {
        lemma_segments_nonempty(text.skip(i + 1));
    }
}

impl DotScan {
    /// What a scan says of the segments of the text it describes.
    proof fn lemma_segments(self, text: Seq<char>)
        requires
            self.describes(text),
        ensures
            segments(text).len() >= 1,
            self.dots == 0 ==> segments(text) == seq![text],
            self.dots >= 1 ==> segments(text)[0] == text.take(self.first as int),
            self.dots == 1 ==> segments(text) == seq![
                text.take(self.first as int),
                text.skip(self.first + 1),
            ],
            self.dots >= 2 ==> segments(text).len() >= 3 && segments(text)[1] == text.subrange(
                self.first + 1,
                self.second as int,
            ),
            self.dots == 2 ==> segments(text).len() == 3 && segments(text)[2] == text.skip(
                self.second + 1,
            ),
            self.dots == 3 ==> segments(text).len() >= 4 && segments(text)[2] == text.subrange(
                self.second + 1,
                self.third as int,
            ),
    {
        lemma_segments_nonempty(text);
        if self.dots == 0 {
            lemma_segments_dot_free(text);
        } else {
            let first = self.first as int;
            let after_first = text.skip(first + 1);
            lemma_segments_at_dot(text, first);
            lemma_segments_nonempty(after_first);
            if self.dots == 1 {
                lemma_segments_dot_free(after_first);
            } else {
                let second = self.second as int;
                let after_second = text.skip(second + 1);
                lemma_segments_at_dot(after_first, second - first - 1);
                assert(after_first.take(second - first - 1) =~= text.subrange(first + 1, second));
                assert(after_first.skip(second - first) =~= after_second);
                lemma_segments_nonempty(after_second);
                if self.dots == 2 {
                    lemma_segments_dot_free(after_second);
                } else {
                    let third = self.third as int;
                    lemma_segments_at_dot(after_second, third - second - 1);
                    assert(after_second.take(third - second - 1) =~= text.subrange(
                        second + 1,
                        third,
                    ));
                    lemma_segments_nonempty(after_second.skip(third - second));
                }
            }
        }
    }
}

/// Takes a text apart into the three segments of a token.
///
/// The text is cut at its dots. It is a token when that gives exactly three
/// pieces and none of them is empty; the segments are then those pieces,
/// unchanged and in order. Any other text is refused with the first reason
/// that applies.
pub fn split(text: &str) -> (r: Result<Token, ParseError>)
    ensures
        match defect(text@) {
            Some(d) => r matches Err(e) && e == ParseError::MalformedToken(d),
            None => r matches Ok(token) && token@ == token_of(text@) && token@.well_formed()
                && token@.text() == text@,
        },
{
    let scan = scan_dots(text);
    proof {
        scan.lemma_segments(text@);
    }
    let header_end: usize = if scan.dots >= 1 { scan.first } else { scan.length };
    if header_end == 0 {
        return Err(ParseError::MalformedToken(TokenDefect::MissingHeader));
    }
    if scan.dots == 0 {
        return Err(ParseError::MalformedToken(TokenDefect::MissingClaims));
    }
    let claims_start: usize = scan.first + 1;
    let claims_end: usize = if scan.dots >= 2 { scan.second } else { scan.length };
    if claims_end == claims_start {
        return Err(ParseError::MalformedToken(TokenDefect::MissingClaims));
    }
    if scan.dots == 1 {
        return Err(ParseError::MalformedToken(TokenDefect::MissingSignature));
    }
    let signature_start: usize = scan.second + 1;
    let signature_end: usize = if scan.dots >= 3 { scan.third } else { scan.length };
    if signature_end == signature_start {
        return Err(ParseError::MalformedToken(TokenDefect::MissingSignature));
    }
    if scan.dots == 3 {
        return Err(ParseError::MalformedToken(TokenDefect::ExtraSegment));
    }
    let header_segment = text.substring_char(0, header_end).to_owned();
    let claims_segment = text.substring_char(claims_start, claims_end).to_owned();
    let signature_segment = text.substring_char(signature_start, signature_end).to_owned();
    proof {
        lemma_token_of_sound(text@);
        assert(text@.subrange(0, header_end as int) =~= text@.take(header_end as int));
        assert(text@.subrange(signature_start as int, signature_end as int) =~= text@.skip(
            signature_start as int,
        ));
    }
    Ok(Token { header_segment, claims_segment, signature_segment })
}

/// A text without defect is its three segments joined by dots, and none of
/// them is empty or holds a dot.
pub proof fn lemma_token_of_sound(text: Seq<char>)
    requires
        defect(text) is None,
    ensures
        token_of(text).well_formed(),
        token_of(text).text() == text,
{
    let i = first_dot(text);
    lemma_segments_nonempty(text);
    if 0 <= i < text.len() {
        let rest = text.skip(i + 1);
        lemma_first_dot_exists(text);
        lemma_segments_nonempty(rest);
        let j = first_dot(rest);
        lemma_first_dot_exists(rest);
        if 0 <= j < rest.len() {
            let tail = rest.skip(j + 1);
            lemma_segments_nonempty(tail);
            let k = first_dot(tail);
            lemma_first_dot_exists(tail);
            if 0 <= k < tail.len() {
                lemma_segments_nonempty(tail.skip(k + 1));
                assert(false);
            } else {
                assert(tail.take(k) =~= tail);
                assert(token_of(text).text() =~= text);
            }
        } else {
            assert(false);
        }
    } else {
        assert(false);
    }
}

/// Every text has a place for its first dot.
pub proof fn lemma_first_dot_exists(text: Seq<char>)
    ensures
        is_first_dot(text, first_dot(text)),
    decreases text.len(),
{
    if dot_free(text) {
        assert(text.take(text.len() as int) =~= text);
        assert(is_first_dot(text, text.len() as int));
    } else {
        let d = choose|d: int| 0 <= d < text.len() && text[d] == '.';
        lemma_least_dot(text, d);
    }
}

/// Below any dot stands a first one.
proof fn lemma_least_dot(text: Seq<char>, d: int)
    requires
        0 <= d < text.len(),
        text[d] == '.',
    ensures
        exists|i: int| is_first_dot(text, i),
    decreases d,
{
    if dot_free(text.take(d)) {
        assert(is_first_dot(text, d));
    } else {
        let e = choose|e: int| 0 <= e < text.take(d).len() && text.take(d)[e] == '.';
        lemma_least_dot(text, e);
    }
}

/// A token's text splits back into the token: joining three non-empty,
/// dot-free segments by dots gives a text without defect whose segments are
/// those three, unchanged and in order.
pub proof fn lemma_split_restores_token(token: TokenView)
    requires
        token.well_formed(),
    ensures
        segments(token.text()) == seq![token.header, token.claims, token.signature],
        defect(token.text()) is None,
        token_of(token.text()) == token,
{
    let text = token.text();
    let h = token.header.len() as int;
    let c = token.claims.len() as int;
    let rest = token.claims + seq!['.'] + token.signature;
    assert(text.take(h) =~= token.header);
    assert(text.skip(h + 1) =~= rest);
    lemma_segments_at_dot(text, h);
    assert(rest.take(c) =~= token.claims);
    assert(rest.skip(c + 1) =~= token.signature);
    lemma_segments_at_dot(rest, c);
    lemma_segments_dot_free(token.signature);
    assert(segments(text) =~= seq![token.header, token.claims, token.signature]);
}

/// A text that does not fall into exactly three segments is no token.
pub proof fn lemma_wrong_count_is_defect(text: Seq<char>)
    requires
        segments(text).len() != 3,
    ensures
        defect(text) is Some,
{
}

/// Takes a token apart and reads the signing algorithm out of its header.
///
/// A text that is not three non-empty segments is refused as `split` refuses
/// it. Otherwise the header segment is decoded: where that fails, the header
/// is malformed; where it gives an algorithm, the answer is the token with
/// the kind of that algorithm.
pub fn parse(text: &str) -> (r: Result<(Token, AlgorithmKind), ParseError>)
    ensures
        match defect(text@) {
            Some(d) => r matches Err(e) && e == ParseError::MalformedToken(d),
            None => match header_algorithm(token_of(text@).header) {
                None => r matches Err(e) && e == ParseError::MalformedHeader,
                Some(algorithm) => r matches Ok(parsed) && parsed.0@ == token_of(text@)
                    && parsed.0@.well_formed() && parsed.1.describes(algorithm),
            },
        },
{
    match split(text) {
        Err(e) => Err(e),
        Ok(token) => match decode_header_algorithm(token.header_segment()) {
            Err(_) => Err(ParseError::MalformedHeader),
            Ok(algorithm) => Ok((token, classify(algorithm))),
        },
    }
}

impl Token {
    /// Whether two tokens have the same three segments.
    pub fn same(&self, other: &Token) -> (same: bool)
        ensures
            same == (self@ == other@),
    {
        self.header_segment == other.header_segment && self.claims_segment == other.claims_segment
            && self.signature_segment == other.signature_segment
    }
}

} // verus!
