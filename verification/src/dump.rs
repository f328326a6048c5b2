//! The dump controller: a step-per-row state machine that an outer loop
//! drives with chunks and an interruption flag, and a whole-buffer dump
//! that renders every line of a dump in one call.

use vstd::prelude::*;
use vstd::slice::slice_subrange;
use vstd::arithmetic::div_mod::{
    lemma_fundamental_div_mod, lemma_fundamental_div_mod_converse_div,
    lemma_fundamental_div_mod_converse_mod,
};
use crate::{Config, spec_row_width};
use crate::render::{
    footer_lines, header_lines, row_line, spec_footer_lines, spec_header_lines, spec_row_line,
};

verus! {

/// The byte budget of a dump: the configured length, or effectively
/// unlimited where none is set.
pub open spec fn spec_limit(cfg: Config) -> nat {
    match cfg.length {
        Option::None => u64::MAX as nat,
        Option::Some(l) => l as nat,
    }
}

/// Where in `data` a dump starts: the offset, clamped to the end.
pub open spec fn spec_start(cfg: Config, data: Seq<u8>) -> nat {
    if cfg.offset as nat <= data.len() {
        cfg.offset as nat
    } else {
        data.len()
    }
}

/// The bytes a dump of `data` shows: those from the clamped offset up to
/// the byte budget.
pub open spec fn spec_shown(cfg: Config, data: Seq<u8>) -> Seq<u8> {
    let start = spec_start(cfg, data);
    let end: nat = if start + spec_limit(cfg) <= data.len() {
        (start + spec_limit(cfg)) as nat
    } else {
        data.len()
    };
    data.subrange(start as int, end as int)
}

/// The number of rows a dump emits.
pub open spec fn spec_row_count(cfg: Config, data: Seq<u8>) -> nat {
    let w = spec_row_width(cfg.base) as int;
    let n = spec_shown(cfg, data).len() as int;
    (n / w + if n % w == 0 {
        0int
    } else {
        1int
    }) as nat
}

/// The bytes of row `i` of a dump.
pub open spec fn spec_row_slice(cfg: Config, data: Seq<u8>, i: int) -> Seq<u8> {
    let shown = spec_shown(cfg, data);
    let w = spec_row_width(cfg.base) as int;
    let hi: int = if (i + 1) * w <= shown.len() {
        (i + 1) * w
    } else {
        shown.len() as int
    };
    shown.subrange(i * w, hi)
}

/// Every output line of a dump, in order: header, rows, footer.
pub open spec fn spec_dump_lines(cfg: Config, data: Seq<u8>, path: Seq<char>) -> Seq<Seq<char>> {
    spec_header_lines(cfg) + Seq::new(
        spec_row_count(cfg, data),
        |i: int| spec_row_line(cfg, i as nat, spec_row_slice(cfg, data, i)),
    ) + spec_footer_lines(cfg, spec_shown(cfg, data).len(), path)
}

/// Row-count law: a dump emits the shown byte count — the smaller of the
/// byte budget and the bytes available past the offset — divided by the
/// row width, rounded up.
pub proof fn lemma_rows_emitted(cfg: Config, data: Seq<u8>)
    ensures
        ({
            let avail: nat = if cfg.offset as nat <= data.len() {
                (data.len() - cfg.offset as nat) as nat
            } else {
                0
            };
            let shown: nat = if spec_limit(cfg) <= avail {
                spec_limit(cfg)
            } else {
                avail
            };
            let w = spec_row_width(cfg.base) as int;
            spec_row_count(cfg, data) == (shown + w - 1) / w
        }),
{
    let w = spec_row_width(cfg.base) as int;
    let n = spec_shown(cfg, data).len() as int;
    lemma_fundamental_div_mod(n, w);
    let q = n / w;
    let r = n % w;
    if r == 0 {
        assert(n + w - 1 == q * w + (w - 1)) by (nonlinear_arith)
            requires
                n == w * q,
        ;
        lemma_fundamental_div_mod_converse_div(n + w - 1, w, q, w - 1);
    } else {
        assert(n + w - 1 == (q + 1) * w + (r - 1)) by (nonlinear_arith)
            requires
                n == w * q + r,
        ;
        lemma_fundamental_div_mod_converse_div(n + w - 1, w, q + 1, r - 1);
    }
}

/// Determinism law: the same bytes under the same configuration and path
/// always render to the same output lines.
pub proof fn lemma_dump_deterministic(
    cfg1: Config,
    cfg2: Config,
    data1: Seq<u8>,
    data2: Seq<u8>,
    path1: Seq<char>,
    path2: Seq<char>,
)
    requires
        cfg1 == cfg2,
        data1 == data2,
        path1 == path2,
    ensures
        spec_dump_lines(cfg1, data1, path1) == spec_dump_lines(cfg2, data2, path2),
{
}

/// The dump controller's state: how many bytes and rows went out, and
/// whether the dump is over.
pub struct Dumper {
    /// The configuration the dump runs under.
    pub config: Config,
    /// Bytes shown so far.
    pub bytes_emitted: u64,
    /// Rows emitted so far.
    pub rows: u64,
    /// Whether the dump is over: budget reached, source drained, or
    /// interrupted.
    pub done: bool,
}

impl Dumper {
    /// The controller never shows more than the budget, and every row
    /// holds at least one byte.
    pub open spec fn wf(self) -> bool {
        self.bytes_emitted as nat <= spec_limit(self.config) && self.rows <= self.bytes_emitted
    }

    /// Whether a step with this chunk length and interruption flag ends
    /// the dump instead of emitting a row.
    pub open spec fn spec_stops(self, chunk_len: nat, interrupted: bool) -> bool {
        self.done || interrupted || chunk_len == 0 || self.bytes_emitted as nat >= spec_limit(
            self.config,
        )
    }

    /// How many bytes of the chunk the next row shows: at most a row, at
    /// most what the budget still allows.
    pub open spec fn spec_take(self, chunk_len: nat) -> nat {
        let w = spec_row_width(self.config.base);
        let rem = spec_limit(self.config) - self.bytes_emitted as nat;
        let m: int = if chunk_len <= w {
            chunk_len as int
        } else {
            w as int
        };
        if m <= rem {
            m as nat
        } else {
            rem as nat
        }
    }

    /// Opens a dump under a configuration.
    pub fn begin(config: Config) -> (d: Dumper)
        ensures
            d.config == config,
            d.bytes_emitted == 0,
            d.rows == 0,
            !d.done,
            d.wf(),
    {
        Dumper { config, bytes_emitted: 0, rows: 0, done: false }
    }

    /// One iteration of the dump loop. Fed the next chunk and the
    /// interruption flag, it either ends the dump — already over,
    /// interrupted, source drained, or budget reached — or renders one
    /// row of at most `spec_take` bytes and counts it.
    pub fn step(&mut self, chunk: &[u8], interrupted: bool) -> (line: Option<String>)
        requires
            old(self).wf(),
        ensures
            final(self).wf(),
            final(self).config == old(self).config,
            old(self).spec_stops(chunk@.len(), interrupted) ==> {
                &&& line is None
                &&& final(self).done
                &&& final(self).bytes_emitted == old(self).bytes_emitted
                &&& final(self).rows == old(self).rows
            },
            !old(self).spec_stops(chunk@.len(), interrupted) ==> ({
                let take = old(self).spec_take(chunk@.len());
                &&& line is Some
                &&& line.unwrap()@ == spec_row_line(
                    old(self).config,
                    old(self).rows as nat,
                    chunk@.take(take as int),
                )
                &&& final(self).bytes_emitted as nat == old(self).bytes_emitted as nat + take
                &&& final(self).rows == old(self).rows + 1
                &&& final(self).done == (old(self).bytes_emitted as nat + take == spec_limit(
                    old(self).config,
                ))
            }),
    {
        let limit: u64 = match self.config.length {
            Option::None => u64::MAX,
            Option::Some(l) => l,
        };
        if self.done || interrupted || chunk.len() == 0 || self.bytes_emitted >= limit {
            self.done = true;
            return None;
        }
        let rem: u64 = limit - self.bytes_emitted;
        let w = self.config.base.row_width();
        let mut take: usize = chunk.len();
        if take > w {
            take = w;
        }
        if take as u64 > rem {
            take = rem as usize;
        }
        proof {
            assert(take as nat == old(self).spec_take(chunk@.len()));
            assert(take >= 1);
        }
        let slice = slice_subrange(chunk, 0, take);
        proof {
            assert(slice@ =~= chunk@.take(take as int));
        }
        let line = row_line(&self.config, self.rows, slice);
        self.rows = self.rows + 1;
        self.bytes_emitted = self.bytes_emitted + take as u64;
        if self.bytes_emitted == limit {
            self.done = true;
        }
        Some(line)
    }

    /// The footer for the dump as it stands: the closing rule where
    /// guides are on, and the summary of bytes shown and the path.
    pub fn finish(&self, path: &str) -> (lines: Vec<String>)
        ensures
            lines.deep_view() == spec_footer_lines(self.config, self.bytes_emitted as nat, path@),
    {
        footer_lines(&self.config, self.bytes_emitted, path)
    }
}

/// Renders a whole dump of in-memory bytes: the header, every row, and
/// the footer, exactly the lines the dump of `data` under `cfg` shows.
#[verifier::loop_isolation(false)]
#[verifier::rlimit(60)]
pub fn dump_lines(cfg: &Config, data: &[u8], path: &str) -> (lines: Vec<String>)
    ensures
        lines.deep_view() == spec_dump_lines(*cfg, data@, path@),
{
    let ghost rowfn = |i: int| spec_row_line(*cfg, i as nat, spec_row_slice(*cfg, data@, i));
    let mut lines = header_lines(cfg);
    let w = cfg.base.row_width();
    let start: usize = if cfg.offset >= data.len() as u64 {
        data.len()
    } else {
        cfg.offset as usize
    };
    let avail: usize = data.len() - start;
    let slen: usize = match cfg.length {
        Option::None => avail,
        Option::Some(l) => if l < avail as u64 {
            l as usize
        } else {
            avail
        },
    };
    proof {
        assert(start as nat == spec_start(*cfg, data@));
        assert(slen as nat == spec_shown(*cfg, data@).len());
        assert(lines.deep_view() =~= spec_header_lines(*cfg) + Seq::new(0, rowfn));
    }
    let mut left: usize = slen;
    let mut pos: usize = start;
    let mut r: u64 = 0;
    while left > 0
        invariant
            w == spec_row_width(cfg.base),
            start as nat == spec_start(*cfg, data@),
            slen as nat == spec_shown(*cfg, data@).len(),
            start + slen <= data@.len(),
            left <= slen,
            pos == start + (slen - left),
            r as int <= slen - left,
            left > 0 ==> (slen - left) as int == (r as int) * (w as int),
            left == 0 ==> r as nat == spec_row_count(*cfg, data@),
            lines.deep_view() == spec_header_lines(*cfg) + Seq::new(r as nat, rowfn),
        decreases left,
    {
        let c: usize = if left < w {
            left
        } else {
            w
        };
        let chunk = slice_subrange(data, pos, pos + c);
        let line = row_line(cfg, r, chunk);
        let ghost prev = lines.deep_view();
        lines.push(line);
        proof {
            let shown = spec_shown(*cfg, data@);
            let wi = w as int;
            let ri = r as int;
            let consumed = slen - left;
            assert((ri + 1) * wi == ri * wi + wi) by (nonlinear_arith);
            assert(shown =~= data@.subrange(start as int, (start + slen) as int));
            assert(chunk@ =~= spec_row_slice(*cfg, data@, ri));
            assert(lines.deep_view() =~= prev.push(line@));
            assert(Seq::new((r + 1) as nat, rowfn) =~= Seq::new(r as nat, rowfn).push(rowfn(ri)));
            assert(lines.deep_view() =~= spec_header_lines(*cfg) + Seq::new((r + 1) as nat, rowfn));
            if c < left {
                assert((slen - (left - c)) as int == (ri + 1) * wi);
            } else {
                lemma_fundamental_div_mod_converse_div(slen as int, wi, ri + (if c == w {
                    1int
                } else {
                    0int
                }), (if c == w {
                    0int
                } else {
                    c as int
                }));
                lemma_fundamental_div_mod_converse_mod(slen as int, wi, ri + (if c == w {
                    1int
                } else {
                    0int
                }), (if c == w {
                    0int
                } else {
                    c as int
                }));
                assert((r + 1) as nat == spec_row_count(*cfg, data@));
            }
        }
        pos += c;
        left -= c;
        r += 1;
    }
    proof {
        if slen == 0 {
            assert(spec_shown(*cfg, data@).len() as int % (w as int) == 0);
            assert(spec_shown(*cfg, data@).len() as int / (w as int) == 0);
            assert(r as nat == spec_row_count(*cfg, data@));
        }
    }
    let footer = footer_lines(cfg, slen as u64, path);
    let ghost body = spec_header_lines(*cfg) + Seq::new(spec_row_count(*cfg, data@), rowfn);
    let mut k: usize = 0;
    proof {
        assert(footer.deep_view().take(0) =~= Seq::<Seq<char>>::empty());
        assert(lines.deep_view() =~= body + footer.deep_view().take(0));
    }
    while k < footer.len()
        invariant
            k <= footer@.len(),
            footer.deep_view() == spec_footer_lines(
                *cfg,
                spec_shown(*cfg, data@).len(),
                path@,
            ),
            lines.deep_view() == body + footer.deep_view().take(k as int),
            body == spec_header_lines(*cfg) + Seq::new(spec_row_count(*cfg, data@), rowfn),
        decreases footer@.len() - k,
    {
        let ghost prev = lines.deep_view();
        let s = footer[k].clone();
        lines.push(s);
        proof {
            assert(footer.deep_view().take(k + 1) =~= footer.deep_view().take(k as int).push(
                footer.deep_view()[k as int],
            ));
            assert(lines.deep_view() =~= prev.push(footer@[k as int]@));
            assert(footer.deep_view()[k as int] == footer@[k as int]@);
            assert(lines.deep_view() =~= body + footer.deep_view().take(k + 1));
        }
        k += 1;
    }
    proof {
        assert(footer.deep_view().take(footer@.len() as int) =~= footer.deep_view());
        assert(lines.deep_view() =~= spec_dump_lines(*cfg, data@, path@));
    }
    lines
}

} // verus!
