//! A big-endian cursor over a byte region, with the string and list
//! reads that every record format is built from.

use vstd::prelude::*;

use crate::error::Error;

verus! {

/// The characters that the bytes `b` stand for, one per byte.
pub open spec fn ascii_chars(b: Seq<u8>) -> Seq<char> {
    b.map_values(|x: u8| x as char)
}

/// The words of a count-prefixed list of big-endian words at the start of `t`.
pub open spec fn u32_list(t: Seq<u8>) -> Seq<u32> {
    Seq::new(be_u32(t) as nat, |i: int| be_u32(t.skip(4 + 4 * i)))
}

/// A byte that may stand inside a zero-terminated ASCII string.
pub open spec fn is_text_byte(b: u8) -> bool {
    0 < b && b < 0x80
}

/// How many bytes at the start of `s` may stand inside a zero-terminated string.
pub open spec fn text_run(s: Seq<u8>) -> nat
    decreases s.len(),
{
    if s.len() == 0 || !is_text_byte(s[0]) {
        0
    } else {
        1 + text_run(s.skip(1))
    }
}

/// How many bytes at the start of `s` are below 0x80.
pub open spec fn low_run(s: Seq<u8>) -> nat
    decreases s.len(),
{
    if s.len() == 0 || s[0] >= 0x80 {
        0
    } else {
        1 + low_run(s.skip(1))
    }
}

/// A zero-terminated ASCII string at the start of `s`: its characters and
/// the bytes it takes, terminator included.
pub open spec fn c_string(s: Seq<u8>) -> Result<(Seq<char>, nat), Error> {
    let k = text_run(s);
    if k >= s.len() {
        Err(Error::Truncated)
    } else if s[k as int] == 0 {
        Ok((ascii_chars(s.take(k as int)), k + 1))
    } else {
        Err(Error::NonAsciiByte)
    }
}

/// A string stored in exactly `n` bytes and cut at its first zero byte.
pub open spec fn fixed_string(s: Seq<u8>, n: nat) -> Result<Seq<char>, Error> {
    let k = text_run(s.take(n as int));
    if s.len() < n {
        Err(Error::Truncated)
    } else if k == n || s[k as int] == 0 {
        Ok(ascii_chars(s.take(k as int)))
    } else {
        Err(Error::NonAsciiByte)
    }
}

/// A 32-bit length and that many ASCII bytes: the characters and the bytes taken.
pub open spec fn prefixed_string(s: Seq<u8>) -> Result<(Seq<char>, nat), Error> {
    if s.len() < 4 {
        Err(Error::Truncated)
    } else {
        let n = be_u32(s) as nat;
        let body = s.skip(4);
        let k = low_run(body);
        if k >= n {
            Ok((ascii_chars(body.take(n as int)), 4 + n))
        } else if k == body.len() {
            Err(Error::Truncated)
        } else {
            Err(Error::NonAsciiByte)
        }
    }
}

proof fn lemma_text_run(s: Seq<u8>)
    ensures
        text_run(s) <= s.len(),
        forall|i: int| 0 <= i < text_run(s) ==> is_text_byte(#[trigger] s[i]),
        text_run(s) < s.len() ==> !is_text_byte(s[text_run(s) as int]),
    decreases s.len(),
{
    if s.len() > 0 && is_text_byte(s[0]) {
        lemma_text_run(s.skip(1));
        assert forall|i: int| 0 <= i < text_run(s) implies is_text_byte(#[trigger] s[i]) by {
            if i > 0 {
                assert(s[i] == s.skip(1)[i - 1]);
            }
        }
    }
}

proof fn lemma_low_run(s: Seq<u8>)
    ensures
        low_run(s) <= s.len(),
        forall|i: int| 0 <= i < low_run(s) ==> #[trigger] s[i] < 0x80,
        low_run(s) < s.len() ==> s[low_run(s) as int] >= 0x80,
    decreases s.len(),
{
    if s.len() > 0 && s[0] < 0x80 {
        lemma_low_run(s.skip(1));
        assert forall|i: int| 0 <= i < low_run(s) implies #[trigger] s[i] < 0x80 by {
            if i > 0 {
                assert(s[i] == s.skip(1)[i - 1]);
            }
        }
    }
}

/// Relies on String::push: the character is appended.
#[verifier::external_body]
fn push_char(s: &mut String, c: char)
    ensures
        final(s)@ == old(s)@.push(c),
{
    s.push(c)
}

pub open spec fn be_u16(b: Seq<u8>) -> u16 {
    (b[0] as nat * 256 + b[1] as nat) as u16
}

pub open spec fn be_u32(b: Seq<u8>) -> u32 {
    (b[0] as nat * 16777216 + b[1] as nat * 65536 + b[2] as nat * 256 + b[3] as nat) as u32
}

/// The big-endian word at `off`.
pub fn u32_at(t: &[u8], off: usize) -> (r: u32)
    requires
        off + 4 <= t@.len(),
    ensures
        r == be_u32(t@.skip(off as int)),
{
    let len = t.len();
    assert(off + 4 <= len);
    (t[off] as u32) * 16777216 + (t[off + 1] as u32) * 65536 + (t[off + 2] as u32) * 256 + (
    t[off + 3] as u32)
}

/// The big-endian half-word at `off`.
pub fn u16_at(t: &[u8], off: usize) -> (r: u16)
    requires
        off + 2 <= t@.len(),
    ensures
        r == be_u16(t@.skip(off as int)),
{
    let len = t.len();
    assert(off + 2 <= len);
    (t[off] as u16) * 256 + (t[off + 1] as u16)
}

/// A forward-only cursor over a byte region; its view is the bytes not yet read.
pub struct Reader<'a> {
    pub data: &'a [u8],
    pub pos: usize,
}

impl<'a> View for Reader<'a> {
    type V = Seq<u8>;

    open spec fn view(&self) -> Seq<u8> {
        self.data@.subrange(self.pos as int, self.data@.len() as int)
    }
}

impl<'a> Reader<'a> {
    pub open spec fn wf(&self) -> bool {
        self.pos <= self.data@.len()
    }

    pub fn new(data: &'a [u8]) -> (r: Reader<'a>)
        ensures
            r.wf(),
            r.data == data,
            r.pos == 0,
            r@ == data@,
    {
        let r = Reader { data, pos: 0 };
        assert(r@ =~= data@);
        r
    }

    /// The number of bytes not yet read.
    pub fn remaining(&self) -> (n: usize)
        requires
            self.wf(),
        ensures
            n == self@.len(),
    {
        self.data.len() - self.pos
    }

    pub fn read_u8(&mut self) -> (r: Result<u8, Error>)
        requires
            old(self).wf(),
        ensures
            final(self).wf(),
            final(self).data == old(self).data,
            match r {
                Ok(v) => old(self)@.len() >= 1 && v == old(self)@[0] && final(self)@ == old(self)@.skip(1),
                Err(e) => old(self)@.len() < 1 && e == Error::Truncated && final(self)@ == old(self)@,
            },
    {
        if self.data.len() - self.pos < 1 {
            return Err(Error::Truncated);
        }
        let v = self.data[self.pos];
        self.pos = self.pos + 1;
        assert(self@ =~= old(self)@.skip(1));
        Ok(v)
    }

    pub fn read_u16(&mut self) -> (r: Result<u16, Error>)
        requires
            old(self).wf(),
        ensures
            final(self).wf(),
            final(self).data == old(self).data,
            match r {
                Ok(v) => old(self)@.len() >= 2 && v == be_u16(old(self)@) && final(self)@ == old(self)@.skip(2),
                Err(e) => old(self)@.len() < 2 && e == Error::Truncated && final(self)@ == old(self)@,
            },
    {
        if self.data.len() - self.pos < 2 {
            return Err(Error::Truncated);
        }
        let b0 = self.data[self.pos] as u16;
        let b1 = self.data[self.pos + 1] as u16;
        self.pos = self.pos + 2;
        assert(self@ =~= old(self)@.skip(2));
        Ok(b0 * 256 + b1)
    }

    pub fn read_u32(&mut self) -> (r: Result<u32, Error>)
        requires
            old(self).wf(),
        ensures
            final(self).wf(),
            final(self).data == old(self).data,
            match r {
                Ok(v) => old(self)@.len() >= 4 && v == be_u32(old(self)@) && final(self)@ == old(self)@.skip(4),
                Err(e) => old(self)@.len() < 4 && e == Error::Truncated && final(self)@ == old(self)@,
            },
    {
        if self.data.len() - self.pos < 4 {
            return Err(Error::Truncated);
        }
        let b0 = self.data[self.pos] as u32;
        let b1 = self.data[self.pos + 1] as u32;
        let b2 = self.data[self.pos + 2] as u32;
        let b3 = self.data[self.pos + 3] as u32;
        self.pos = self.pos + 4;
        assert(self@ =~= old(self)@.skip(4));
        Ok(b0 * 16777216 + b1 * 65536 + b2 * 256 + b3)
    }

    pub fn read_i8(&mut self) -> (r: Result<i8, Error>)
        requires
            old(self).wf(),
        ensures
            final(self).wf(),
            final(self).data == old(self).data,
            match r {
                Ok(v) => old(self)@.len() >= 1 && v == old(self)@[0] as i8 && final(self)@ == old(self)@.skip(1),
                Err(e) => old(self)@.len() < 1 && e == Error::Truncated && final(self)@ == old(self)@,
            },
    {
        let v = self.read_u8()?;
        Ok(v as i8)
    }

    pub fn read_i16(&mut self) -> (r: Result<i16, Error>)
        requires
            old(self).wf(),
        ensures
            final(self).wf(),
            final(self).data == old(self).data,
            match r {
                Ok(v) => old(self)@.len() >= 2 && v == be_u16(old(self)@) as i16 && final(self)@ == old(self)@.skip(2),
                Err(e) => old(self)@.len() < 2 && e == Error::Truncated && final(self)@ == old(self)@,
            },
    {
        let v = self.read_u16()?;
        Ok(v as i16)
    }

    pub fn read_i32(&mut self) -> (r: Result<i32, Error>)
        requires
            old(self).wf(),
        ensures
            final(self).wf(),
            final(self).data == old(self).data,
            match r {
                Ok(v) => old(self)@.len() >= 4 && v == be_u32(old(self)@) as i32 && final(self)@ == old(self)@.skip(4),
                Err(e) => old(self)@.len() < 4 && e == Error::Truncated && final(self)@ == old(self)@,
            },
    {
        let v = self.read_u32()?;
        Ok(v as i32)
    }

    /// Reads `n` big-endian 32-bit words.
    pub fn read_u32_array(&mut self, n: usize) -> (r: Result<Vec<u32>, Error>)
        requires
            old(self).wf(),
        ensures
            final(self).wf(),
            final(self).data == old(self).data,
            match r {
                Ok(v) => old(self)@.len() >= 4 * n && v@.len() == n
                    && (forall|i: int| 0 <= i < n ==> #[trigger] v@[i] == be_u32(old(self)@.skip(4 * i)))
                    && final(self)@ == old(self)@.skip(4 * n),
                Err(e) => old(self)@.len() < 4 * n && e == Error::Truncated,
            },
    {
        let mut v: Vec<u32> = Vec::new();
        let mut i: usize = 0;
        while i < n
            invariant
                self.wf(),
                self.data == old(self).data,
                i <= n,
                v@.len() == i,
                old(self)@.len() >= 4 * i,
                self@ == old(self)@.skip(4 * i),
                forall|j: int| 0 <= j < i ==> #[trigger] v@[j] == be_u32(old(self)@.skip(4 * j)),
            decreases n - i,
        {
            let x = self.read_u32()?;
            assert(old(self)@.skip(4 * i).skip(4) =~= old(self)@.skip(4 * (i + 1)));
            v.push(x);
            i = i + 1;
        }
        Ok(v)
    }

    /// Reads a 32-bit count and then that many big-endian 32-bit words.
    pub fn read_u32_list(&mut self) -> (r: Result<Vec<u32>, Error>)
        requires
            old(self).wf(),
        ensures
            final(self).wf(),
            final(self).data == old(self).data,
            match r {
                Ok(v) => {
                    let n = be_u32(old(self)@) as int;
                    &&& old(self)@.len() >= 4 + 4 * n
                    &&& v@.len() == n
                    &&& forall|i: int| 0 <= i < n ==> #[trigger] v@[i] == be_u32(old(self)@.skip(4 + 4 * i))
                    &&& v@ == u32_list(old(self)@)
                    &&& final(self)@ == old(self)@.skip(4 + 4 * n)
                },
                Err(e) => e == Error::Truncated && (old(self)@.len() < 4 || old(self)@.len() < 4 + 4
                    * be_u32(old(self)@)),
            },
    {
        let ghost s = old(self)@;
        let n = self.read_u32()?;
        let v = self.read_u32_array(n as usize)?;
        proof {
            assert forall|i: int| 0 <= i < n implies #[trigger] v@[i] == be_u32(s.skip(4 + 4 * i)) by {
                assert(s.skip(4).skip(4 * i) =~= s.skip(4 + 4 * i));
            }
            assert(s.skip(4).skip(4 * n) =~= s.skip(4 + 4 * n));
            assert(v@ =~= u32_list(s));
        }
        Ok(v)
    }

    /// Moves past `n` bytes.
    pub fn skip_bytes(&mut self, n: usize) -> (r: Result<(), Error>)
        requires
            old(self).wf(),
        ensures
            final(self).wf(),
            final(self).data == old(self).data,
            match r {
                Ok(_) => old(self)@.len() >= n && final(self)@ == old(self)@.skip(n as int),
                Err(e) => old(self)@.len() < n && e == Error::Truncated && final(self)@ == old(self)@,
            },
    {
        if self.data.len() - self.pos < n {
            return Err(Error::Truncated);
        }
        self.pos = self.pos + n;
        assert(self@ =~= old(self)@.skip(n as int));
        Ok(())
    }

    /// Takes the next `n` bytes as a region of their own.
    pub fn read_bytes(&mut self, n: usize) -> (r: Result<&'a [u8], Error>)
        requires
            old(self).wf(),
        ensures
            final(self).wf(),
            final(self).data == old(self).data,
            match r {
                Ok(b) => old(self)@.len() >= n && b@ == old(self)@.take(n as int)
                    && final(self)@ == old(self)@.skip(n as int),
                Err(e) => old(self)@.len() < n && e == Error::Truncated && final(self)@ == old(self)@,
            },
    {
        if self.data.len() - self.pos < n {
            return Err(Error::Truncated);
        }
        let b = &self.data[self.pos..self.pos + n];
        self.pos = self.pos + n;
        assert(self@ =~= old(self)@.skip(n as int));
        assert(b@ =~= old(self)@.take(n as int));
        Ok(b)
    }

    /// Takes all bytes not yet read.
    pub fn read_to_end(&mut self) -> (b: &'a [u8])
        requires
            old(self).wf(),
        ensures
            final(self).wf(),
            final(self).data == old(self).data,
            b@ == old(self)@,
            final(self)@.len() == 0,
    {
        let b = &self.data[self.pos..self.data.len()];
        self.pos = self.data.len();
        b
    }

    /// Reads bytes up to a zero byte, which is consumed and not kept.
    pub fn read_ascii_c_string(&mut self) -> (r: Result<String, Error>)
        requires
            old(self).wf(),
        ensures
            final(self).wf(),
            final(self).data == old(self).data,
            match r {
                Ok(s) => {
                    let k = s@.len() as int;
                    &&& k < old(self)@.len()
                    &&& old(self)@[k] == 0
                    &&& forall|i: int| 0 <= i < k ==> is_text_byte(#[trigger] old(self)@[i])
                    &&& s@ == ascii_chars(old(self)@.take(k))
                    &&& final(self)@ == old(self)@.skip(k + 1)
                },
                Err(Error::NonAsciiByte) => exists|k: int|
                    0 <= k < old(self)@.len() && old(self)@[k] >= 0x80
                    && forall|i: int| 0 <= i < k ==> is_text_byte(#[trigger] old(self)@[i]),
                Err(Error::Truncated) => forall|i: int|
                    0 <= i < old(self)@.len() ==> is_text_byte(#[trigger] old(self)@[i]),
                Err(_) => false,
            },
            match c_string(old(self)@) {
                Ok((t, n)) => r is Ok && r->Ok_0@ == t && final(self)@ == old(self)@.skip(n as int),
                Err(e) => r is Err && r->Err_0 == e,
            },
    {
        proof {
            lemma_text_run(old(self)@);
        }
        let start = self.pos;
        let mut s = String::new();
        loop
            invariant
                self.wf(),
                self.data == old(self).data,
                old(self).pos == start,
                start <= self.pos,
                self@ == old(self)@.skip(self.pos - start),
                forall|i: int| 0 <= i < self.pos - start ==> is_text_byte(#[trigger] old(self)@[i]),
                s@ == ascii_chars(old(self)@.take(self.pos - start)),
                self.pos - start <= text_run(old(self)@),
                text_run(old(self)@) <= old(self)@.len(),
                forall|i: int| 0 <= i < text_run(old(self)@) ==> is_text_byte(#[trigger] old(self)@[i]),
                text_run(old(self)@) < old(self)@.len() ==> !is_text_byte(old(self)@[text_run(old(self)@) as int]),
            decreases self.data@.len() - self.pos,
        {
            if self.pos == self.data.len() {
                return Err(Error::Truncated);
            }
            let b = self.data[self.pos];
            assert(b == old(self)@[self.pos - start]);
            self.pos = self.pos + 1;
            assert(self@ =~= old(self)@.skip(self.pos - start));
            if b == 0 {
                return Ok(s);
            }
            if b >= 0x80 {
                return Err(Error::NonAsciiByte);
            }
            push_char(&mut s, b as char);
            assert(old(self)@.take(self.pos - start) =~= old(self)@.take(self.pos - start - 1).push(b));
        }
    }

    /// Reads exactly `n` bytes and keeps those before the first zero byte.
    pub fn read_fixed_capacity_ascii_c_string(&mut self, n: usize) -> (r: Result<String, Error>)
        requires
            old(self).wf(),
        ensures
            final(self).wf(),
            final(self).data == old(self).data,
            match r {
                Ok(s) => {
                    let k = s@.len() as int;
                    &&& old(self)@.len() >= n
                    &&& final(self)@ == old(self)@.skip(n as int)
                    &&& k <= n
                    &&& (k == n || old(self)@[k] == 0)
                    &&& forall|i: int| 0 <= i < k ==> is_text_byte(#[trigger] old(self)@[i])
                    &&& s@ == ascii_chars(old(self)@.take(k))
                },
                Err(Error::NonAsciiByte) => old(self)@.len() >= n && exists|k: int|
                    0 <= k < n && old(self)@[k] >= 0x80
                    && forall|i: int| 0 <= i < k ==> is_text_byte(#[trigger] old(self)@[i]),
                Err(Error::Truncated) => old(self)@.len() < n,
                Err(_) => false,
            },
            match fixed_string(old(self)@, n as nat) {
                Ok(t) => r is Ok && r->Ok_0@ == t && final(self)@ == old(self)@.skip(n as int),
                Err(e) => r is Err && r->Err_0 == e,
            },
    {
        proof {
            lemma_text_run(old(self)@.take(n as int));
        }
        let block = self.read_bytes(n)?;
        let mut s = String::new();
        let mut i: usize = 0;
        while i < n
            invariant
                self.wf(),
                self.data == old(self).data,
                self@ == old(self)@.skip(n as int),
                block@ == old(self)@.take(n as int),
                old(self)@.len() >= n,
                i <= n,
                forall|j: int| 0 <= j < i ==> is_text_byte(#[trigger] old(self)@[j]),
                s@ == ascii_chars(old(self)@.take(i as int)),
                i <= text_run(old(self)@.take(n as int)),
                text_run(old(self)@.take(n as int)) <= n,
                forall|j: int| 0 <= j < text_run(old(self)@.take(n as int)) ==> is_text_byte(#[trigger] old(self)@.take(n as int)[j]),
                text_run(old(self)@.take(n as int)) < n ==> !is_text_byte(old(self)@.take(n as int)[text_run(old(self)@.take(n as int)) as int]),
            decreases n - i,
        {
            let b = block[i];
            if b == 0 {
                return Ok(s);
            }
            if b >= 0x80 {
                return Err(Error::NonAsciiByte);
            }
            push_char(&mut s, b as char);
            assert(old(self)@.take(i + 1) =~= old(self)@.take(i as int).push(b));
            i = i + 1;
        }
        Ok(s)
    }

    /// Reads a 32-bit length and then that many ASCII bytes.
    pub fn read_length_prefixed_string(&mut self) -> (r: Result<String, Error>)
        requires
            old(self).wf(),
        ensures
            final(self).wf(),
            final(self).data == old(self).data,
            ({
                let n = be_u32(old(self)@) as int;
                let body = old(self)@.skip(4);
                match r {
                    Ok(s) => {
                        &&& old(self)@.len() >= 4 + n
                        &&& forall|i: int| 0 <= i < n ==> #[trigger] body[i] < 0x80
                        &&& s@ == ascii_chars(body.take(n))
                        &&& final(self)@ == old(self)@.skip(4 + n)
                    },
                    Err(Error::NonAsciiByte) => old(self)@.len() >= 4 && exists|k: int|
                        0 <= k < n && k < body.len() && body[k] >= 0x80
                        && forall|i: int| 0 <= i < k ==> #[trigger] body[i] < 0x80,
                    Err(Error::Truncated) => old(self)@.len() < 4 || (body.len() < n
                        && forall|i: int| 0 <= i < body.len() ==> #[trigger] body[i] < 0x80),
                    Err(_) => false,
                }
            }),
            match prefixed_string(old(self)@) {
                Ok((t, k)) => r is Ok && r->Ok_0@ == t && final(self)@ == old(self)@.skip(k as int),
                Err(e) => r is Err && r->Err_0 == e,
            },
    {
        proof {
            lemma_low_run(old(self)@.skip(4));
        }
        let n = self.read_u32()?;
        let ghost body = old(self)@.skip(4);
        let mut s = String::new();
        let mut i: u32 = 0;
        while i < n
            invariant
                self.wf(),
                self.data == old(self).data,
                old(self)@.len() >= 4,
                n == be_u32(old(self)@),
                body == old(self)@.skip(4),
                i <= n,
                body.len() >= i,
                self@ == body.skip(i as int),
                forall|j: int| 0 <= j < i ==> #[trigger] body[j] < 0x80,
                s@ == ascii_chars(body.take(i as int)),
                i <= low_run(body),
                low_run(body) <= body.len(),
                forall|j: int| 0 <= j < low_run(body) ==> #[trigger] body[j] < 0x80,
                low_run(body) < body.len() ==> body[low_run(body) as int] >= 0x80,
            decreases n - i,
        {
            let b = self.read_u8()?;
            if b >= 0x80 {
                return Err(Error::NonAsciiByte);
            }
            push_char(&mut s, b as char);
            assert(body.take(i + 1) =~= body.take(i as int).push(b));
            assert(body.skip(i as int).skip(1) =~= body.skip(i + 1));
            i = i + 1;
        }
        assert(self@ =~= old(self)@.skip(4 + n));
        Ok(s)
    }
}

} // verus!
