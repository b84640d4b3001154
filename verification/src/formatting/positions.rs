//! Where the cursor goes in formatted output: the line and column it had
//! are looked up again in the new bytes.
use vstd::prelude::*;
use vstd::utf8::is_continuation_byte;

verus! {

/// Formatted output may hold at most this many bytes.
pub const MAX_OUTPUT_BYTES: usize = 4194304;
/// Output is read in chunks of this many bytes.
pub const CHUNK_BYTES: usize = 16384;

/// A byte offset together with its zero-based line and column.
#[derive(Clone, Copy, Debug, Default, PartialEq, Eq, Structural)]
pub struct Position {
    pub byte: usize,
    pub line: usize,
    pub column: usize,
}

/// What mapping has found after some bytes: the position reached, the
/// positions found for both targets, and the error that stopped it.
pub struct MapV {
    pub current: Position,
    pub found: (Option<Position>, Option<Position>),
    pub error: Option<Seq<char>>,
}

pub open spec fn map_start() -> MapV {
    MapV { current: Position { byte: 0, line: 0, column: 0 }, found: (None, None), error: None }
}

/// Whether target `(line, column)` is reached at `p` just before byte `b`:
/// on its line, at or after its column, or at the end of a shorter line.
pub open spec fn reached(p: Position, target: (usize, usize), b: u8) -> bool {
    p.line == target.0 && (p.column >= target.1 || b == 10 || b == 13)
}

/// One byte of output.
pub open spec fn map_step(s: MapV, targets: ((usize, usize), (usize, usize)), b: u8) -> MapV {
    if s.error is Some {
        s
    } else if b == 0 {
        MapV { error: Some("Formatter returned binary output; document preserved"@), ..s }
    } else {
        let c = s.current;
        let found = if is_continuation_byte(b) {
            s.found
        } else {
            (
                if s.found.0 is None && reached(c, targets.0, b) { Some(c) } else { s.found.0 },
                if s.found.1 is None && reached(c, targets.1, b) { Some(c) } else { s.found.1 },
            )
        };
        let moved = if is_continuation_byte(b) {
            c
        } else if b == 10 {
            Position { line: (c.line + 1) as usize, column: 0, ..c }
        } else {
            Position { column: (c.column + 1) as usize, ..c }
        };
        let next = Position { byte: (moved.byte + 1) as usize, ..moved };
        if next.byte > MAX_OUTPUT_BYTES {
            MapV { current: next, found, error: Some("Formatter output exceeds the size limit"@) }
        } else {
            MapV { current: next, found, error: None }
        }
    }
}

/// The state after all of `bytes`, one byte at a time.
pub open spec fn map_bytes(s: MapV, targets: ((usize, usize), (usize, usize)), bytes: Seq<u8>) -> MapV
    decreases bytes.len(),
{
    if bytes.len() == 0 {
        s
    } else {
        map_step(map_bytes(s, targets, bytes.drop_last()), targets, bytes.last())
    }
}

/// Mapping the bytes of two chunks in turn is mapping them together.
pub proof fn lemma_chunks(s: MapV, targets: ((usize, usize), (usize, usize)), a: Seq<u8>, b: Seq<u8>)
    ensures
        map_bytes(map_bytes(s, targets, a), targets, b) == map_bytes(s, targets, a + b),
    decreases b.len(),
{
    if b.len() == 0 {
        assert(a + b =~= a);
    } else {
        lemma_chunks(s, targets, a, b.drop_last());
        assert((a + b).drop_last() =~= a + b.drop_last());
        assert((a + b).last() == b.last());
    }
}

pub proof fn lemma_map_bounds(s: MapV, targets: ((usize, usize), (usize, usize)), bytes: Seq<u8>)
    requires
        s.error is None ==> s.current.byte <= MAX_OUTPUT_BYTES,
        s.current.line <= s.current.byte,
        s.current.column <= s.current.byte,
    ensures
        map_bytes(s, targets, bytes).error is None ==> map_bytes(s, targets, bytes).current.byte <= MAX_OUTPUT_BYTES,
        map_bytes(s, targets, bytes).current.line <= map_bytes(s, targets, bytes).current.byte,
        map_bytes(s, targets, bytes).current.column <= map_bytes(s, targets, bytes).current.byte,
    decreases bytes.len(),
{
    if bytes.len() > 0 {
        lemma_map_bounds(s, targets, bytes.drop_last());
    }
}

/// Mapping counts every byte, and finds positions only among the bytes seen.
pub proof fn lemma_map_progress(targets: ((usize, usize), (usize, usize)), bytes: Seq<u8>)
    ensures
        map_bytes(map_start(), targets, bytes).error is None ==> map_bytes(map_start(), targets, bytes).current.byte == bytes.len(),
        map_bytes(map_start(), targets, bytes).found.0 matches Some(p) ==> p.byte <= map_bytes(map_start(), targets, bytes).current.byte,
        map_bytes(map_start(), targets, bytes).found.1 matches Some(p) ==> p.byte <= map_bytes(map_start(), targets, bytes).current.byte,
    decreases bytes.len(),
{
    if bytes.len() > 0 {
        lemma_map_progress(targets, bytes.drop_last());
    }
}

/// The positions found, or where the output ended for a target not found.
pub open spec fn map_result(s: MapV) -> (Position, Position) {
    (
        match s.found.0 { Some(p) => p, None => s.current },
        match s.found.1 { Some(p) => p, None => s.current },
    )
}

/// Maps the two `(line, column)` targets over output fed in chunks.
pub struct PositionMapper {
    targets: ((usize, usize), (usize, usize)),
    current: Position,
    found: (Option<Position>, Option<Position>),
    error: Option<String>,
}

pub open spec fn opt_chars(e: Option<String>) -> Option<Seq<char>> {
    match e {
        Some(s) => Some(s@),
        None => None,
    }
}

impl View for PositionMapper {
    type V = MapV;

    closed spec fn view(&self) -> MapV {
        MapV { current: self.current, found: self.found, error: opt_chars(self.error) }
    }
}

impl PositionMapper {
    pub closed spec fn targets(&self) -> ((usize, usize), (usize, usize)) {
        self.targets
    }

    pub closed spec fn wf(&self) -> bool {
        &&& (self.error is None ==> self.current.byte <= MAX_OUTPUT_BYTES)
        &&& self.current.line <= self.current.byte
        &&& self.current.column <= self.current.byte
    }

    pub fn new(targets: [(usize, usize); 2]) -> (r: Self)
        ensures
            r.wf(),
            r@ == map_start(),
            r.targets() == (targets@[0], targets@[1]),
    {
        PositionMapper {
            targets: (targets[0], targets[1]),
            current: Position { byte: 0, line: 0, column: 0 },
            found: (None, None),
            error: None,
        }
    }

    /// Maps the next chunk of output; the error that stops mapping, if any.
    pub fn feed(&mut self, chunk: &[u8]) -> (r: Result<(), String>)
        requires
            old(self).wf(),
        ensures
            final(self).wf(),
            final(self).targets() == old(self).targets(),
            final(self)@ == map_bytes(old(self)@, old(self).targets(), chunk@),
            r is Ok <==> final(self)@.error is None,
            r matches Err(e) ==> final(self)@.error == Some(e@),
    {
        let ghost start = self@;
        let mut i: usize = 0;
        assert(chunk@.take(0) =~= Seq::<u8>::empty());
        while i < chunk.len()
            invariant
                0 <= i <= chunk.len(),
                self.wf(),
                self.targets == old(self).targets,
                self@ == map_bytes(start, self.targets, chunk@.take(i as int)),
            decreases chunk.len() - i,
        {
            assert(chunk@.take(i + 1).drop_last() =~= chunk@.take(i as int));
            if self.error.is_none() {
                self.step(chunk[i]);
            }
            i = i + 1;
        }
        assert(chunk@.take(i as int) =~= chunk@);
        match &self.error {
            Some(e) => Err(e.clone()),
            None => Ok(()),
        }
    }

    fn step(&mut self, b: u8)
        requires
            old(self).wf(),
            old(self)@.error is None,
        ensures
            final(self).wf(),
            final(self).targets == old(self).targets,
            final(self)@ == map_step(old(self)@, old(self).targets, b),
    {
        if b == 0 {
            self.error = Some(crate::text::string_from("Formatter returned binary output; document preserved"));
            return;
        }
        let c = self.current;
        let continuation = crate::document::is_continuation(b);
        if !continuation {
            let t0 = self.targets.0;
            let t1 = self.targets.1;
            if self.found.0.is_none() && c.line == t0.0 && (c.column >= t0.1 || b == 10 || b == 13) {
                self.found.0 = Some(c);
            }
            if self.found.1.is_none() && c.line == t1.0 && (c.column >= t1.1 || b == 10 || b == 13) {
                self.found.1 = Some(c);
            }
        }
        let moved = if continuation {
            c
        } else if b == 10 {
            Position { line: c.line + 1, column: 0, ..c }
        } else {
            Position { column: c.column + 1, ..c }
        };
        let next = Position { byte: moved.byte + 1, ..moved };
        self.current = next;
        if next.byte > MAX_OUTPUT_BYTES {
            self.error = Some(crate::text::string_from("Formatter output exceeds the size limit"));
        }
    }

    /// The positions found; a target not found maps to the end of the output.
    pub fn finish(&self) -> (r: [Position; 2])
        ensures
            (r@[0], r@[1]) == map_result(self@),
    {
        let a = match self.found.0 {
            Some(p) => p,
            None => self.current,
        };
        let b = match self.found.1 {
            Some(p) => p,
            None => self.current,
        };
        [a, b]
    }
}

/// Maps two cursor endpoints, given as `(line, column)`, into `output`.
pub fn map_positions(output: &[u8], targets: [(usize, usize); 2]) -> (r: Result<[Position; 2], String>)
    ensures
        ({
            let s = map_bytes(map_start(), (targets@[0], targets@[1]), output@);
            &&& (s.error is None ==> (r matches Ok(ps) && (ps@[0], ps@[1]) == map_result(s)))
            &&& (s.error matches Some(e) ==> (r matches Err(m) && m@ == e))
        }),
{
    let mut mapper = PositionMapper::new(targets);
    match mapper.feed(output) {
        Ok(()) => Ok(mapper.finish()),
        Err(e) => Err(e),
    }
}

} // verus!
