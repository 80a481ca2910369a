use vstd::prelude::*;
use vstd::string::StrSliceExecFns;

use crate::token::{Token, TokenWithPos};

verus! {

/// The characters of the string, in order.
fn chars_of(s: &str) -> (r: Vec<char>)
    ensures
        r@ == s@,
{
    let n = s.unicode_len();
    let mut v: Vec<char> = Vec::new();
    let mut i: usize = 0;
    while i < n
        invariant
            n == s@.len(),
            i <= n,
            v@ == s@.subrange(0, i as int),
        decreases n - i,
    {
        v.push(s.get_char(i));
        proof {
            assert(v@ =~= s@.subrange(0, i as int + 1));
        }
        i = i + 1;
    }
    proof {
        assert(v@ =~= s@);
    }
    v
}

/// One step of a saturating 1-based position counter; a text long
/// enough to reach the limit cannot exist in memory.
pub open spec fn sat_inc_usize(n: usize) -> usize {
    if n < usize::MAX {
        (n + 1) as usize
    } else {
        n
    }
}

/// Whether this character can start a keyword of the language.
pub open spec fn spec_is_hangul_start(c: char) -> bool {
    c == '어' || c == '엄' || c == '준' || c == '식' || c == '동' || c == '화' || c == '이'
}

/// Whether this character belongs to the syllable ranges the keyword
/// scanner consumes.
pub open spec fn spec_is_hangul_char(c: char) -> bool {
    (('가' as u32) <= c as u32 && c as u32 <= ('힣' as u32)) || (('ㄱ' as u32) <= c as u32
        && c as u32 <= ('ㅎ' as u32)) || (('ㅏ' as u32) <= c as u32 && c as u32 <= ('ㅣ' as u32))
}

/// The cursor and column after the run of tab and carriage-return
/// characters at the cursor.
pub open spec fn spec_skip_tr(input: Seq<char>, pos: int, col: usize) -> (int, usize)
    decreases input.len() - pos,
{
    if 0 <= pos < input.len() && (input[pos] == '\t' || input[pos] == '\r') {
        spec_skip_tr(input, pos + 1, sat_inc_usize(col))
    } else {
        (pos, col)
    }
}

/// The cursor and column after the run of keyword syllables at the
/// cursor.
pub open spec fn spec_hangul_run(input: Seq<char>, pos: int, col: usize) -> (int, usize)
    decreases input.len() - pos,
{
    if 0 <= pos < input.len() && spec_is_hangul_char(input[pos]) {
        spec_hangul_run(input, pos + 1, sat_inc_usize(col))
    } else {
        (pos, col)
    }
}

/// The cursor and column after the run of reference syllables at the
/// cursor.
pub open spec fn spec_eo_run(input: Seq<char>, pos: int, col: usize) -> (int, usize)
    decreases input.len() - pos,
{
    if 0 <= pos < input.len() && input[pos] == '어' {
        spec_eo_run(input, pos + 1, sat_inc_usize(col))
    } else {
        (pos, col)
    }
}

/// Whether the program-end phrase starts at index `k` of `v`.
pub open spec fn phrase_at(v: Seq<char>, k: int) -> bool {
    &&& 0 <= k
    &&& k + 6 <= v.len()
    &&& v[k] == '사'
    &&& v[k + 1] == '람'
    &&& v[k + 2] == '이'
    &&& v[k + 3] == '름'
    &&& v[k + 4] == '이'
    &&& v[k + 5] == '냐'
}

/// Whether the collected syllables contain the fixed phrase of the
/// program-end marker as a contiguous run.
pub open spec fn spec_contains_phrase(v: Seq<char>) -> bool {
    exists|k: int| phrase_at(v, k)
}

/// The spelling of the program-end marker keyword.
pub open spec fn end_marker_chars() -> Seq<char> {
    seq!['이', ' ', '사', '람', '이', '름', '이', '냐']
}

/// The maximal keyword read at the cursor: the collected syllables, the
/// cursor, the line, and the column after it.  The program-end
/// lookahead is the only place the cursor is restored.
pub open spec fn spec_read_keyword(input: Seq<char>, pos: int, line: usize, col: usize) -> (
    Seq<char>,
    int,
    usize,
    usize,
) {
    if !(0 <= pos < input.len()) {
        (seq![], pos, line, col)
    } else {
        let c0 = input[pos];
        let p1 = pos + 1;
        let col1 = sat_inc_usize(col);
        if c0 == '이' {
            if 0 <= p1 < input.len() && input[p1] == ' ' {
                let run = spec_hangul_run(input, p1 + 1, sat_inc_usize(col1));
                if spec_contains_phrase(input.subrange(p1 + 1, run.0)) {
                    (end_marker_chars(), run.0, line, run.1)
                } else {
                    (seq!['이'], p1, line, col1)
                }
            } else {
                let run = spec_hangul_run(input, p1, col1);
                (seq!['이'] + input.subrange(p1, run.0), run.0, line, run.1)
            }
        } else if c0 == '어' {
            if 0 <= p1 < input.len() && input[p1] == '떻' {
                let p2 = p1 + 1;
                let col2 = sat_inc_usize(col1);
                if 0 <= p2 < input.len() && input[p2] == '게' {
                    (seq!['어', '떻', '게'], p2 + 1, line, sat_inc_usize(col2))
                } else {
                    (seq!['어', '떻'], p2, line, col2)
                }
            } else if 0 <= p1 < input.len() && input[p1] == '어' {
                let run = spec_eo_run(input, p1, col1);
                let kw = input.subrange(pos, run.0);
                if 0 <= run.0 < input.len() && input[run.0] == '엄' {
                    (kw.push('엄'), run.0 + 1, line, sat_inc_usize(run.1))
                } else {
                    (kw, run.0, line, run.1)
                }
            } else if 0 <= p1 < input.len() && input[p1] == '엄' {
                (seq!['어', '엄'], p1 + 1, line, sat_inc_usize(col1))
            } else {
                (seq!['어'], p1, line, col1)
            }
        } else if c0 == '동' {
            if 0 <= p1 < input.len() && input[p1] == '탄' {
                (seq!['동', '탄'], p1 + 1, line, sat_inc_usize(col1))
            } else {
                (seq!['동'], p1, line, col1)
            }
        } else if c0 == '화' {
            if 0 <= p1 < input.len() && input[p1] == '이' {
                let p2 = p1 + 1;
                let col2 = sat_inc_usize(col1);
                if 0 <= p2 < input.len() && input[p2] == '팅' {
                    (seq!['화', '이', '팅'], p2 + 1, line, sat_inc_usize(col2))
                } else {
                    (seq!['화', '이'], p2, line, col2)
                }
            } else {
                (seq!['화'], p1, line, col1)
            }
        } else {
            (seq![c0], p1, line, col1)
        }
    }
}

/// The index of the first assignment syllable in the keyword, or its
/// length when there is none.
pub open spec fn spec_first_eom(kw: Seq<char>, i: int) -> int
    decreases kw.len() - i,
{
    if !(0 <= i < kw.len()) {
        kw.len() as int
    } else if kw[i] == '엄' {
        i
    } else {
        spec_first_eom(kw, i + 1)
    }
}

/// The token a collected keyword stands for, or none when it is not a
/// keyword of the language: a run of reference syllables counts as one
/// reference; reference syllables followed by one final assignment
/// syllable collapse into one assignment marker; the fixed keywords
/// match their spelling; anything holding the end phrase is the end
/// marker.
pub open spec fn spec_match_keyword(kw: Seq<char>) -> Option<Token> {
    if kw.len() > 0 && (forall|i: int| 0 <= i < kw.len() ==> kw[i] == '어') {
        Some(Token::Eo(kw.len() as usize))
    } else {
        let ep = spec_first_eom(kw, 0);
        if ep < kw.len() && ep + 1 == kw.len() && (forall|i: int| 0 <= i < ep ==> kw[i] == '어') {
            Some(Token::Eom(ep as usize))
        } else if kw == seq!['어', '떻', '게'] {
            Some(Token::Eotteohke)
        } else if kw == seq!['준'] {
            Some(Token::Joon)
        } else if kw == seq!['식'] {
            Some(Token::Sik)
        } else if kw == seq!['동', '탄'] {
            Some(Token::Dongtan)
        } else if kw == seq!['화', '이', '팅'] {
            Some(Token::Hwaiting)
        } else if spec_contains_phrase(kw) {
            Some(Token::IEotteonSaram)
        } else {
            None
        }
    }
}

/// The token stream of the text from the given scanner state, ending
/// with an end-of-input token, or none when a character outside the
/// language's alphabet is reached.  The guards on the cursor make
/// termination of this definition self-evident; the scanner only moves
/// forward.
pub open spec fn spec_lex(input: Seq<char>, pos: int, line: usize, col: usize) -> Option<
    Seq<TokenWithPos>,
>
    decreases input.len() - pos,
{
    let s = spec_skip_tr(input, pos, col);
    let p = s.0;
    let c = s.1;
    if !(pos <= p) {
        None
    } else if p >= input.len() {
        Some(seq![TokenWithPos { token: Token::EOF, line, col: c }])
    } else {
        let ch = input[p];
        if ch == ' ' || ch == '\n' || ch == '~' || ch == '.' || ch == ',' || ch == '?' || ch == '!'
            || ch == 'ㅋ' {
            let t = if ch == ' ' {
                Token::Space
            } else if ch == '\n' {
                Token::Newline
            } else if ch == '~' {
                Token::Tilde
            } else if ch == '.' {
                Token::Dot
            } else if ch == ',' {
                Token::Comma
            } else if ch == '?' {
                Token::Question
            } else if ch == '!' {
                Token::Exclamation
            } else {
                Token::Kek
            };
            let line2 = if ch == '\n' {
                sat_inc_usize(line)
            } else {
                line
            };
            let col2 = if ch == '\n' {
                1usize
            } else {
                sat_inc_usize(c)
            };
            match spec_lex(input, p + 1, line2, col2) {
                Some(rest) => Some(seq![TokenWithPos { token: t, line, col: c }] + rest),
                None => None,
            }
        } else if spec_is_hangul_start(ch) {
            let k = spec_read_keyword(input, p, line, c);
            if !(p < k.1 <= input.len()) {
                None
            } else {
                match spec_match_keyword(k.0) {
                    Some(t) => match spec_lex(input, k.1, k.2, k.3) {
                        Some(rest) => Some(seq![TokenWithPos { token: t, line, col: c }] + rest),
                        None => None,
                    },
                    None => None,
                }
            }
        } else {
            None
        }
    }
}

/// The scanner: turns source text into positioned tokens.
///
/// It never moves backwards except for one bounded lookahead used to
/// recognize the program-end marker.  Line and column counters saturate
/// instead of wrapping; a text long enough to reach the limit cannot
/// exist in memory.
pub struct Lexer {
    pub input: Vec<char>,
    pub position: usize,
    pub line: usize,
    pub col: usize,
}

impl Lexer {
    /// A scanner at the start of the given source text.
    pub fn new(input: &str) -> (r: Self)
        ensures
            r.input@ == input@,
            r.position == 0,
            r.line == 1,
            r.col == 1,
    {
        Lexer { input: chars_of(input), position: 0, line: 1, col: 1 }
    }

    /// The character under the cursor, if any.
    fn current_char(&self) -> (r: Option<char>)
        ensures
            r is Some <==> self.position < self.input@.len(),
            r is Some ==> r->Some_0 == self.input@[self.position as int],
    {
        if self.position < self.input.len() {
            Some(self.input[self.position])
        } else {
            None
        }
    }

    /// Consumes one character, advancing the line and column counters.
    fn advance(&mut self) -> (r: Option<char>)
        ensures
            final(self).input == old(self).input,
            old(self).position < old(self).input@.len() ==> {
                &&& final(self).position == old(self).position + 1
                &&& r == Some(old(self).input@[old(self).position as int])
                &&& final(self).line == (if old(self).input@[old(self).position as int] == '\n' {
                    sat_inc_usize(old(self).line)
                } else {
                    old(self).line
                })
                &&& final(self).col == (if old(self).input@[old(self).position as int] == '\n' {
                    1usize
                } else {
                    sat_inc_usize(old(self).col)
                })
            },
            old(self).position >= old(self).input@.len() ==> (*final(self) == *old(self) && r
                is None),
    {
        if self.position < self.input.len() {
            let ch = self.input[self.position];
            self.position = self.position + 1;
            if ch == '\n' {
                self.line = if self.line < usize::MAX {
                    self.line + 1
                } else {
                    self.line
                };
                self.col = 1;
            } else {
                self.col = if self.col < usize::MAX {
                    self.col + 1
                } else {
                    self.col
                };
            }
            Some(ch)
        } else {
            None
        }
    }

    /// Skips tab and carriage-return characters, which separate tokens
    /// without meaning.
    #[verifier::loop_isolation(false)]
    fn skip_whitespace_except_newline_and_space(&mut self)
        ensures
            final(self).input == old(self).input,
            final(self).line == old(self).line,
            (final(self).position as int, final(self).col) == spec_skip_tr(
                old(self).input@,
                old(self).position as int,
                old(self).col,
            ),
            old(self).position <= final(self).position,
            (final(self).position <= old(self).input@.len() || final(self).position == old(
                self,
            ).position),
    {
        while self.position < self.input.len() && (self.input[self.position] == '\t'
            || self.input[self.position] == '\r')
            invariant
                self.input == old(self).input,
                self.line == old(self).line,
                old(self).position <= self.position,
                (self.position <= self.input@.len() || self.position == old(self).position),
                spec_skip_tr(old(self).input@, old(self).position as int, old(self).col)
                    == spec_skip_tr(self.input@, self.position as int, self.col),
            decreases self.input@.len() - self.position,
        {
            self.advance();
        }
    }

    /// Whether this character can start a keyword of the language.
    fn is_hangul_start(&self, ch: char) -> (r: bool)
        ensures
            r == spec_is_hangul_start(ch),
    {
        ch == '어' || ch == '엄' || ch == '준' || ch == '식' || ch == '동' || ch == '화'
            || ch == '이'
    }

    /// Whether this character belongs to the syllable ranges the
    /// keyword scanner consumes.
    fn is_hangul_char(&self, ch: char) -> (r: bool)
        ensures
            r == spec_is_hangul_char(ch),
    {
        let u = ch as u32;
        (('가' as u32) <= u && u <= ('힣' as u32)) || (('ㄱ' as u32) <= u && u <= ('ㅎ' as u32))
            || (('ㅏ' as u32) <= u && u <= ('ㅣ' as u32))
    }

    /// Whether the collected syllables contain the fixed phrase of the
    /// program-end marker as a contiguous run.
    #[verifier::loop_isolation(false)]
    fn contains_end_phrase(&self, v: &Vec<char>) -> (r: bool)
        ensures
            r == spec_contains_phrase(v@),
    {
        if v.len() < 6 {
            proof {
                assert(forall|k: int| !phrase_at(v@, k));
            }
            return false;
        }
        let mut i: usize = 0;
        while i <= v.len() - 6
            invariant
                v@.len() >= 6,
                i <= v@.len(),
                forall|k: int| 0 <= k < i ==> !phrase_at(v@, k),
            decreases v@.len() - i,
        {
            if v[i] == '사' && v[i + 1] == '람' && v[i + 2] == '이' && v[i + 3] == '름' && v[i
                + 4] == '이' && v[i + 5] == '냐' {
                proof {
                    assert(phrase_at(v@, i as int));
                }
                return true;
            }
            i = i + 1;
        }
        proof {
            assert(forall|k: int| !phrase_at(v@, k));
        }
        false
    }

    /// Reads one maximal keyword starting at the cursor.  The
    /// program-end lookahead is the only place the cursor is restored.
    #[verifier::loop_isolation(false)]
    fn read_hangul_keyword(&mut self) -> (r: Result<Vec<char>, String>)
        requires
            old(self).position < old(self).input@.len(),
            spec_is_hangul_start(old(self).input@[old(self).position as int]),
        ensures
            final(self).input == old(self).input,
            old(self).position < final(self).position <= old(self).input@.len(),
            ({
                let k = spec_read_keyword(
                    old(self).input@,
                    old(self).position as int,
                    old(self).line,
                    old(self).col,
                );
                &&& r is Ok
                &&& r->Ok_0@ == k.0
                &&& final(self).position as int == k.1
                &&& final(self).line == k.2
                &&& final(self).col == k.3
            }),
    {
        let ghost inp = self.input@;
        let ghost pos0 = self.position as int;
        let ghost line0 = self.line;
        let ghost col0 = self.col;
        let mut keyword: Vec<char> = Vec::new();
        if self.current_char() == Some('이') {
            keyword.push('이');
            self.advance();
            if self.current_char() == Some(' ') {
                let saved_pos = self.position;
                let saved_line = self.line;
                let saved_col = self.col;
                self.advance();
                let ghost run_start = self.position as int;
                let ghost run_col = self.col;
                let mut temp: Vec<char> = Vec::new();
                while self.position < self.input.len() && self.is_hangul_char(
                    self.input[self.position],
                )
                    invariant
                        self.input@ == inp,
                        self.input == old(self).input,
                        self.line == line0,
                        run_start <= self.position as int,
                        self.position <= self.input@.len(),
                        temp@ == inp.subrange(run_start, self.position as int),
                        spec_hangul_run(inp, run_start, run_col) == spec_hangul_run(
                            inp,
                            self.position as int,
                            self.col,
                        ),
                    decreases self.input@.len() - self.position,
                {
                    temp.push(self.input[self.position]);
                    self.advance();
                    proof {
                        assert(temp@ =~= inp.subrange(run_start, self.position as int));
                    }
                }
                if self.contains_end_phrase(&temp) {
                    let mut marker: Vec<char> = Vec::new();
                    marker.push('이');
                    marker.push(' ');
                    marker.push('사');
                    marker.push('람');
                    marker.push('이');
                    marker.push('름');
                    marker.push('이');
                    marker.push('냐');
                    proof {
                        assert(marker@ =~= end_marker_chars());
                    }
                    return Ok(marker);
                } else {
                    self.position = saved_pos;
                    self.line = saved_line;
                    self.col = saved_col;
                    proof {
                        assert(keyword@ =~= seq!['이']);
                    }
                    return Ok(keyword);
                }
            }
            let ghost run_start = self.position as int;
            let ghost run_col = self.col;
            while self.position < self.input.len() && self.is_hangul_char(
                self.input[self.position],
            )
                invariant
                    self.input@ == inp,
                    self.input == old(self).input,
                    self.line == line0,
                    run_start <= self.position as int,
                    self.position <= self.input@.len(),
                    keyword@ == seq!['이'] + inp.subrange(run_start, self.position as int),
                    spec_hangul_run(inp, run_start, run_col) == spec_hangul_run(
                        inp,
                        self.position as int,
                        self.col,
                    ),
                decreases self.input@.len() - self.position,
            {
                keyword.push(self.input[self.position]);
                self.advance();
                proof {
                    assert(keyword@ =~= seq!['이'] + inp.subrange(
                        run_start,
                        self.position as int,
                    ));
                }
            }
            return Ok(keyword);
        }
        match self.current_char() {
            Some(ch) => {
                keyword.push(ch);
                self.advance();
            },
            None => {},
        }
        if keyword.len() == 1 && keyword[0] == '어' {
            if self.current_char() == Some('떻') {
                keyword.push('떻');
                self.advance();
                if self.current_char() == Some('게') {
                    keyword.push('게');
                    self.advance();
                    proof {
                        assert(keyword@ =~= seq!['어', '떻', '게']);
                    }
                } else {
                    proof {
                        assert(keyword@ =~= seq!['어', '떻']);
                    }
                }
            } else if self.current_char() == Some('어') {
                let ghost run_start = self.position as int;
                let ghost run_col = self.col;
                while self.position < self.input.len() && self.input[self.position] == '어'
                    invariant
                        self.input@ == inp,
                        self.input == old(self).input,
                        self.line == line0,
                        run_start <= self.position as int,
                        self.position <= self.input@.len(),
                        keyword@ == seq!['어'] + inp.subrange(run_start, self.position as int),
                        spec_eo_run(inp, run_start, run_col) == spec_eo_run(
                            inp,
                            self.position as int,
                            self.col,
                        ),
                    decreases self.input@.len() - self.position,
                {
                    keyword.push('어');
                    self.advance();
                    proof {
                        assert(keyword@ =~= seq!['어'] + inp.subrange(
                            run_start,
                            self.position as int,
                        ));
                    }
                }
                proof {
                    assert(keyword@ =~= inp.subrange(pos0, self.position as int));
                }
                if self.current_char() == Some('엄') {
                    keyword.push('엄');
                    self.advance();
                }
            } else if self.current_char() == Some('엄') {
                keyword.push('엄');
                self.advance();
                proof {
                    assert(keyword@ =~= seq!['어', '엄']);
                }
            }
        } else if keyword.len() == 1 && keyword[0] == '동' {
            if self.current_char() == Some('탄') {
                keyword.push('탄');
                self.advance();
                proof {
                    assert(keyword@ =~= seq!['동', '탄']);
                }
            }
        } else if keyword.len() == 1 && keyword[0] == '화' {
            if self.current_char() == Some('이') {
                keyword.push('이');
                self.advance();
                if self.current_char() == Some('팅') {
                    keyword.push('팅');
                    self.advance();
                    proof {
                        assert(keyword@ =~= seq!['화', '이', '팅']);
                    }
                } else {
                    proof {
                        assert(keyword@ =~= seq!['화', '이']);
                    }
                }
            }
        }
        Ok(keyword)
    }

    /// Classifies one collected keyword as a token.
    #[verifier::loop_isolation(false)]
    fn match_keyword(&self, keyword: &Vec<char>) -> (r: Result<Token, String>)
        ensures
            match spec_match_keyword(keyword@) {
                Some(t) => r is Ok && r->Ok_0 == t,
                None => r is Err,
            },
    {
        let mut all_eo = keyword.len() > 0;
        let mut i: usize = 0;
        while i < keyword.len()
            invariant
                i <= keyword@.len(),
                all_eo <==> (keyword@.len() > 0 && forall|k: int|
                    0 <= k < i ==> keyword@[k] == '어'),
            decreases keyword@.len() - i,
        {
            if keyword[i] != '어' {
                all_eo = false;
            }
            i = i + 1;
        }
        if all_eo {
            return Ok(Token::Eo(keyword.len()));
        }
        let mut eom_pos: usize = 0;
        let mut has_eom = false;
        let mut j: usize = 0;
        while j < keyword.len()
            invariant
                j <= keyword@.len(),
                has_eom ==> eom_pos < keyword@.len(),
                has_eom ==> spec_first_eom(keyword@, 0) == eom_pos,
                !has_eom ==> spec_first_eom(keyword@, 0) == spec_first_eom(keyword@, j as int),
            decreases keyword@.len() - j,
        {
            if keyword[j] == '엄' && !has_eom {
                eom_pos = j;
                has_eom = true;
            }
            j = j + 1;
        }
        if has_eom {
            let mut before_all_eo = true;
            let mut k: usize = 0;
            while k < eom_pos
                invariant
                    eom_pos < keyword@.len(),
                    k <= eom_pos,
                    before_all_eo <==> (forall|m: int| 0 <= m < k ==> keyword@[m] == '어'),
                decreases eom_pos - k,
            {
                if keyword[k] != '어' {
                    before_all_eo = false;
                }
                k = k + 1;
            }
            if before_all_eo && eom_pos + 1 == keyword.len() {
                return Ok(Token::Eom(eom_pos));
            }
        }
        if keyword.len() == 3 && keyword[0] == '어' && keyword[1] == '떻' && keyword[2] == '게' {
            proof {
                assert(keyword@ =~= seq!['어', '떻', '게']);
            }
            return Ok(Token::Eotteohke);
        }
        if keyword.len() == 1 && keyword[0] == '준' {
            proof {
                assert(keyword@ =~= seq!['준']);
            }
            return Ok(Token::Joon);
        }
        if keyword.len() == 1 && keyword[0] == '식' {
            proof {
                assert(keyword@ =~= seq!['식']);
            }
            return Ok(Token::Sik);
        }
        if keyword.len() == 2 && keyword[0] == '동' && keyword[1] == '탄' {
            proof {
                assert(keyword@ =~= seq!['동', '탄']);
            }
            return Ok(Token::Dongtan);
        }
        if keyword.len() == 3 && keyword[0] == '화' && keyword[1] == '이' && keyword[2] == '팅' {
            proof {
                assert(keyword@ =~= seq!['화', '이', '팅']);
            }
            return Ok(Token::Hwaiting);
        }
        if self.contains_end_phrase(keyword) {
            return Ok(Token::IEotteonSaram);
        }
        Err("Unknown keyword".to_owned())
    }

    /// Scans the whole text into tokens, ending with an end-of-input
    /// token; fails exactly when it reaches a character outside the
    /// language's alphabet or a syllable run that is no keyword.
    #[verifier::loop_isolation(false)]
    pub fn tokenize(&mut self) -> (r: Result<Vec<TokenWithPos>, String>)
        ensures
            final(self).input == old(self).input,
            match spec_lex(
                old(self).input@,
                old(self).position as int,
                old(self).line,
                old(self).col,
            ) {
                Some(ts) => r is Ok && r->Ok_0@ == ts,
                None => r is Err,
            },
    {
        let ghost inp = self.input@;
        let ghost pos0 = self.position as int;
        let ghost full = spec_lex(inp, pos0, self.line, self.col);
        let mut tokens: Vec<TokenWithPos> = Vec::new();
        let mut done = false;
        while !done
            invariant
                self.input == old(self).input,
                self.input@ == inp,
                (self.position <= self.input@.len() || self.position == pos0),
                !done ==> match spec_lex(inp, self.position as int, self.line, self.col) {
                    Some(rest) => full == Some(tokens@ + rest),
                    None => full is None,
                },
                done ==> full == Some(tokens@),
            decreases self.input@.len() - self.position, (if done {
                0int
            } else {
                1int
            }),
        {
            let ghost hp0 = self.position as int;
            let ghost hl0 = self.line;
            let ghost hc0 = self.col;
            let ghost tokens_pre = tokens@;
            self.skip_whitespace_except_newline_and_space();
            let line = self.line;
            let col = self.col;
            match self.current_char() {
                None => {
                    tokens.push(TokenWithPos { token: Token::EOF, line, col });
                    proof {
                        assert(tokens_pre + seq![TokenWithPos { token: Token::EOF, line, col }]
                            =~= tokens@);
                    }
                    done = true;
                },
                Some(ch) => {
                    if ch == ' ' {
                        self.advance();
                        tokens.push(TokenWithPos { token: Token::Space, line, col });
                    } else if ch == '\n' {
                        self.advance();
                        tokens.push(TokenWithPos { token: Token::Newline, line, col });
                    } else if ch == '~' {
                        self.advance();
                        tokens.push(TokenWithPos { token: Token::Tilde, line, col });
                    } else if ch == '.' {
                        self.advance();
                        tokens.push(TokenWithPos { token: Token::Dot, line, col });
                    } else if ch == ',' {
                        self.advance();
                        tokens.push(TokenWithPos { token: Token::Comma, line, col });
                    } else if ch == '?' {
                        self.advance();
                        tokens.push(TokenWithPos { token: Token::Question, line, col });
                    } else if ch == '!' {
                        self.advance();
                        tokens.push(TokenWithPos { token: Token::Exclamation, line, col });
                    } else if ch == 'ㅋ' {
                        self.advance();
                        tokens.push(TokenWithPos { token: Token::Kek, line, col });
                    } else if self.is_hangul_start(ch) {
                        let keyword = match self.read_hangul_keyword() {
                            Ok(kw) => kw,
                            Err(e) => {
                                return Err(e);
                            },
                        };
                        let token = match self.match_keyword(&keyword) {
                            Ok(t) => t,
                            Err(e) => {
                                return Err(e);
                            },
                        };
                        tokens.push(TokenWithPos { token, line, col });
                    } else {
                        let mut m = "Unexpected character at line ".to_owned();
                        crate::text::append_usize(&mut m, line);
                        m.append(", col ");
                        crate::text::append_usize(&mut m, col);
                        return Err(m);
                    }
                    proof {
                        match spec_lex(inp, self.position as int, self.line, self.col) {
                            Some(rest2) => {
                                assert(tokens_pre + (seq![tokens@.last()] + rest2) =~= tokens@
                                    + rest2);
                            },
                            None => {},
                        }
                    }
                },
            }
        }
        Ok(tokens)
    }
}

} // verus!
