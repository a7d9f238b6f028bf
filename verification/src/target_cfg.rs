//! Parsing of a compiler's `--print cfg` report, and its encoding as the
//! environment of a build-script run.
//!
//! Collecting the report is a subprocess call and lives outside the
//! library; this module takes the report's bytes.

use vstd::prelude::*;
use vstd::string::StringSliceAdditionalSpecFns;

use crate::bytes;
use crate::error::{Error, ErrorKind};

verus! {

/// A target configuration report, as printed by the compiler.
#[derive(Debug)]
pub struct RustcTargetCfg {
    pub output: Vec<u8>,
}

/// One configuration pair: `key="value"` lines carry a value, bare `key`
/// lines none.
#[derive(Debug)]
pub struct Cfg {
    pub key: Vec<u8>,
    pub value: Option<Vec<u8>>,
}

impl View for Cfg {
    type V = (Seq<u8>, Option<Seq<u8>>);

    open spec fn view(&self) -> (Seq<u8>, Option<Seq<u8>>) {
        (self.key@, self.value.deep_view())
    }
}

/// The pair a report line denotes, or `None` where the line's value misses
/// its quotes.
pub open spec fn spec_cfg_line(line: Seq<u8>) -> Option<(Seq<u8>, Option<Seq<u8>>)> {
    match bytes::find_first(line, '=' as u8) {
        None => Some((line, None)),
        Some(i) => {
            let qv = line.skip(i + 1);
            if qv.len() >= 2 && qv[0] == '"' as u8 && qv[qv.len() - 1] == '"' as u8 {
                Some((line.take(i), Some(qv.subrange(1, qv.len() - 1))))
            } else {
                None
            }
        },
    }
}

/// The pairs of a whole report: one per nonempty line, in order; `None`
/// where some line is malformed.
pub open spec fn spec_cfgs(s: Seq<u8>) -> Option<Seq<(Seq<u8>, Option<Seq<u8>>)>>
    decreases s.len(),
    via spec_cfgs_decreases
{
    if s.len() == 0 {
        Some(Seq::empty())
    } else {
        let line = match bytes::find_first(s, '\n' as u8) {
            Some(i) => s.take(i),
            None => s,
        };
        let rest = match bytes::find_first(s, '\n' as u8) {
            Some(i) => s.skip(i + 1),
            None => Seq::<u8>::empty(),
        };
        match spec_cfgs(rest) {
            None => None,
            Some(tail) => {
                if line.len() == 0 {
                    Some(tail)
                } else {
                    match spec_cfg_line(line) {
                        None => None,
                        Some(c) => Some(seq![c] + tail),
                    }
                }
            },
        }
    }
}

#[via_fn]
proof fn spec_cfgs_decreases(s: Seq<u8>) {
    bytes::lemma_find_first_range(s, '\n' as u8);
}

/// The uppercase form of an ASCII byte.
pub open spec fn spec_upper(c: u8) -> u8 {
    if 'a' as u8 <= c <= 'z' as u8 {
        (c - 32) as u8
    } else {
        c
    }
}

/// The environment key a configuration key is published under.
pub open spec fn spec_env_key(key: Seq<u8>) -> Seq<u8> {
    "CARGO_CFG_".spec_bytes() + key.map_values(|c: u8| spec_upper(c))
}

/// The end of the run of pairs sharing `key`, starting at `from`.
pub open spec fn spec_run_end(cs: Seq<(Seq<u8>, Option<Seq<u8>>)>, key: Seq<u8>, from: int) -> int
    decreases cs.len() - from,
{
    if from < 0 || from >= cs.len() {
        cs.len() as int
    } else if cs[from].0 == key {
        spec_run_end(cs, key, from + 1)
    } else {
        from
    }
}

proof fn lemma_run_end_unique(cs: Seq<(Seq<u8>, Option<Seq<u8>>)>, key: Seq<u8>, from: int, e: int)
    requires
        0 <= from <= e <= cs.len(),
        forall|k: int| from <= k < e ==> (#[trigger] cs[k]).0 == key,
        e < cs.len() ==> cs[e].0 != key,
    ensures
        spec_run_end(cs, key, from) == e,
    decreases e - from,
{
    if from < e {
        lemma_run_end_unique(cs, key, from + 1, e);
    }
}

/// Comma-joined concatenation of a list of values.
pub open spec fn spec_join_comma(vs: Seq<Seq<u8>>) -> Seq<u8>
    decreases vs.len(),
{
    if vs.len() == 0 {
        Seq::empty()
    } else if vs.len() == 1 {
        vs[0]
    } else {
        spec_join_comma(vs.take(vs.len() - 1)) + seq![',' as u8] + vs[vs.len() - 1]
    }
}

/// The pairs of an environment list, as sequences.
pub open spec fn envs_view(s: Seq<(Vec<u8>, Vec<u8>)>) -> Seq<(Seq<u8>, Seq<u8>)> {
    s.map_values(|p: (Vec<u8>, Vec<u8>)| (p.0@, p.1@))
}

/// The build-script environment derived from the report's pairs:
/// `debug_assertions` and `panic` are withheld, a bare key becomes an empty
/// value, and a run of valued pairs sharing a key is comma-joined. `None`
/// where a member of such a run is bare.
pub open spec fn spec_env_cfgs(cs: Seq<(Seq<u8>, Option<Seq<u8>>)>) -> Option<
    Seq<(Seq<u8>, Seq<u8>)>,
>
    decreases cs.len(),
{
    if cs.len() == 0 {
        Some(Seq::empty())
    } else {
        let key = cs[0].0;
        if key == "debug_assertions".spec_bytes() || key == "panic".spec_bytes() {
            spec_env_cfgs(cs.skip(1))
        } else if cs[0].1 is None {
            match spec_env_cfgs(cs.skip(1)) {
                None => None,
                Some(tail) => Some(seq![(spec_env_key(key), Seq::<u8>::empty())] + tail),
            }
        } else {
            let end = vstd::math::min(cs.len() as int, vstd::math::max(1, spec_run_end(cs, key, 1)));
            if forall|k: int| 0 <= k < end ==> (#[trigger] cs[k]).1 is Some {
                let val = spec_join_comma(Seq::new(end as nat, |k: int| cs[k].1->0));
                match spec_env_cfgs(cs.skip(end)) {
                    None => None,
                    Some(tail) => Some(seq![(spec_env_key(key), val)] + tail),
                }
            } else {
                None
            }
        }
    }
}

impl Cfg {
    /// Append the environment key for this configuration key.
    pub fn write_env_key(&self, out: &mut Vec<u8>)
        ensures
            final(out)@ == old(out)@ + spec_env_key(self.key@),
    {
        let prefix = bytes::lit("CARGO_CFG_");
        bytes::push_bytes(out, prefix.as_slice());
        let ghost base = out@;
        let mut i: usize = 0;
        while i < self.key.len()
            invariant
                i <= self.key@.len(),
                out@ == base + self.key@.take(i as int).map_values(|c: u8| spec_upper(c)),
            decreases self.key.len() - i,
        {
            let c = self.key[i];
            let u = if 'a' as u8 <= c && c <= 'z' as u8 {
                c - 32
            } else {
                c
            };
            out.push(u);
            proof {
                assert(self.key@.take(i + 1 as int).map_values(|c: u8| spec_upper(c)) =~= self
                    .key@.take(i as int).map_values(|c: u8| spec_upper(c)).push(
                    spec_upper(self.key@[i as int]),
                ));
            }
            i += 1;
        }
        proof {
            assert(self.key@.take(self.key@.len() as int) =~= self.key@);
            assert(out@ =~= old(out)@ + spec_env_key(self.key@));
        }
    }
}

impl RustcTargetCfg {
    /// Split the report into its configuration pairs. Fails exactly where a
    /// line's value misses its quotes.
    pub fn iter_cfgs(&self) -> (r: Result<Vec<Cfg>, Error>)
        ensures
            match r {
                Ok(cs) => spec_cfgs(self.output@) == Some(cs@.map_values(|c: Cfg| c@)),
                Err(e) => spec_cfgs(self.output@) is None && e.kind == ErrorKind::Parse,
            },
    {
        let mut out: Vec<Cfg> = Vec::new();
        let mut rem = bytes::copy_range(self.output.as_slice(), 0, self.output.len());
        proof {
            assert(rem@ =~= self.output@);
        }
        loop
            invariant
                spec_cfgs(self.output@) == (match spec_cfgs(rem@) {
                    None => None::<Seq<(Seq<u8>, Option<Seq<u8>>)>>,
                    Some(tail) => Some(out@.map_values(|c: Cfg| c@) + tail),
                }),
            decreases rem@.len(),
        {
            if rem.len() == 0 {
                proof {
                    assert(out@.map_values(|c: Cfg| c@) + Seq::<
                        (Seq<u8>, Option<Seq<u8>>),
                    >::empty() =~= out@.map_values(|c: Cfg| c@));
                }
                return Ok(out);
            }
            let (line, rest): (Vec<u8>, Vec<u8>) = match bytes::find_byte(
                rem.as_slice(),
                '\n' as u8,
            ) {
                Some(i) => {
                    proof {
                        bytes::lemma_find_first_unique(rem@, '\n' as u8, i as int);
                    }
                    let line = bytes::copy_range(rem.as_slice(), 0, i);
                    let rest = bytes::copy_range(rem.as_slice(), i + 1, rem.len());
                    proof {
                        assert(line@ =~= rem@.take(i as int));
                        assert(rest@ =~= rem@.skip(i + 1 as int));
                    }
                    (line, rest)
                },
                None => {
                    proof {
                        bytes::lemma_find_first_none(rem@, '\n' as u8);
                    }
                    let line = bytes::copy_range(rem.as_slice(), 0, rem.len());
                    proof {
                        assert(line@ =~= rem@);
                    }
                    (line, Vec::new())
                },
            };
            if line.len() > 0 {
                match Self::parse_cfg_line(&line) {
                    Ok(c) => {
                        let ghost prev = out@.map_values(|cf: Cfg| cf@);
                        let ghost cval = c@;
                        out.push(c);
                        proof {
                            assert(out@.map_values(|cf: Cfg| cf@) =~= prev + seq![cval]);
                            let tail = spec_cfgs(rest@)->0;
                            assert(prev + (seq![cval] + tail) =~= (prev + seq![cval]) + tail);
                        }
                    },
                    Err(e) => {
                        return Err(e);
                    },
                }
            }
            rem = rest;
        }
    }

    /// The pair one nonempty line denotes.
    fn parse_cfg_line(line: &Vec<u8>) -> (r: Result<Cfg, Error>)
        ensures
            match r {
                Ok(c) => spec_cfg_line(line@) == Some(c@),
                Err(e) => spec_cfg_line(line@) is None && e.kind == ErrorKind::Parse,
            },
    {
        match bytes::find_byte(line.as_slice(), '=' as u8) {
            None => {
                proof {
                    bytes::lemma_find_first_none(line@, '=' as u8);
                }
                let key = bytes::copy_range(line.as_slice(), 0, line.len());
                proof {
                    assert(key@ =~= line@);
                }
                Ok(Cfg { key, value: None })
            },
            Some(i) => {
                proof {
                    bytes::lemma_find_first_unique(line@, '=' as u8, i as int);
                }
                let qlen = line.len() - (i + 1);
                if qlen >= 2 && line[i + 1] == '"' as u8 && line[line.len() - 1] == '"' as u8 {
                    let key = bytes::copy_range(line.as_slice(), 0, i);
                    let value = bytes::copy_range(line.as_slice(), i + 2, line.len() - 1);
                    proof {
                        let qv = line@.skip(i + 1 as int);
                        assert(qv[0] == line@[i + 1 as int]);
                        assert(qv[qv.len() - 1] == line@[line@.len() - 1]);
                        assert(key@ =~= line@.take(i as int));
                        assert(value@ =~= qv.subrange(1, qv.len() - 1));
                    }
                    Ok(Cfg { key, value: Some(value) })
                } else {
                    proof {
                        let qv = line@.skip(i + 1 as int);
                        if qv.len() >= 2 {
                            assert(qv[0] == line@[i + 1 as int]);
                            assert(qv[qv.len() - 1] == line@[line@.len() - 1]);
                        }
                    }
                    Err(Error::from_display("cfg value is missing its quotes").with_kind(
                        ErrorKind::Parse,
                    ))
                }
            },
        }
    }

    /// The environment a build-script run gets: the report parsed, filtered
    /// and joined as `spec_env_cfgs` says.
    #[verifier::rlimit(100)]
    pub fn env_cfgs(&self) -> (r: Result<Vec<(Vec<u8>, Vec<u8>)>, Error>)
        ensures
            match r {
                Ok(envs) => spec_cfgs(self.output@) matches Some(cs) && spec_env_cfgs(cs) == Some(
                    envs_view(envs@),
                ),
                Err(e) => (spec_cfgs(self.output@) is None || (spec_cfgs(self.output@)
                    matches Some(cs) && spec_env_cfgs(cs) is None)) && e.kind == ErrorKind::Parse,
            },
    {
        let cfgs = match self.iter_cfgs() {
            Ok(cs) => cs,
            Err(e) => {
                return Err(e);
            },
        };
        let ghost cv = cfgs@.map_values(|c: Cfg| c@);
        let mut out: Vec<(Vec<u8>, Vec<u8>)> = Vec::new();
        let mut i: usize = 0;
        proof {
            assert(cv.skip(0) =~= cv);
            assert(envs_view(out@) =~= Seq::<(Seq<u8>, Seq<u8>)>::empty());
            let t = spec_env_cfgs(cv)->0;
            assert(envs_view(out@) + t =~= t);
        }
        while i < cfgs.len()
            invariant
                i <= cfgs@.len(),
                cv == cfgs@.map_values(|c: Cfg| c@),
                spec_cfgs(self.output@) == Some(cv),
                spec_env_cfgs(cv) == (match spec_env_cfgs(cv.skip(i as int)) {
                    None => None::<Seq<(Seq<u8>, Seq<u8>)>>,
                    Some(tail) => Some(envs_view(out@) + tail),
                }),
            decreases cfgs.len() - i,
        {
            let ghost rem = cv.skip(i as int);
            proof {
                assert(rem[0] == cv[i as int]);
                assert(cv[i as int] == cfgs@[i as int]@);
                assert(rem.skip(1) =~= cv.skip(i + 1 as int));
            }
            let key_is_skipped = bytes::bytes_eq(
                cfgs[i].key.as_slice(),
                bytes::lit("debug_assertions").as_slice(),
            ) || bytes::bytes_eq(cfgs[i].key.as_slice(), bytes::lit("panic").as_slice());
            if key_is_skipped {
                i += 1;
                continue;
            }
            let mut ek: Vec<u8> = Vec::new();
            cfgs[i].write_env_key(&mut ek);
            let is_bare = cfgs[i].value.is_none();
            if is_bare {
                let ghost prev = envs_view(out@);
                proof {
                    assert(ek@ =~= spec_env_key(rem[0].0));
                }
                out.push((ek, Vec::new()));
                proof {
                    assert(envs_view(out@) =~= prev + seq![
                        (spec_env_key(rem[0].0), Seq::<u8>::empty()),
                    ]);
                    let tail = spec_env_cfgs(rem.skip(1))->0;
                    assert(prev + (seq![(spec_env_key(rem[0].0), Seq::<u8>::empty())] + tail)
                        =~= envs_view(out@) + tail);
                }
                i += 1;
                continue;
            }
            // A valued pair: find the end of the run sharing this key.
            let mut j: usize = i + 1;
            loop
                invariant
                    i < j <= cfgs@.len(),
                    cv == cfgs@.map_values(|c: Cfg| c@),
                    forall|k: int| i <= k < j ==> (#[trigger] cv[k]).0 == cv[i as int].0,
                ensures
                    i < j <= cfgs@.len(),
                    forall|k: int| i <= k < j ==> (#[trigger] cv[k]).0 == cv[i as int].0,
                    j < cfgs@.len() ==> cv[j as int].0 != cv[i as int].0,
                decreases cfgs@.len() - j,
            {
                if j >= cfgs.len() {
                    break;
                }
                if !bytes::bytes_eq(cfgs[j].key.as_slice(), cfgs[i].key.as_slice()) {
                    proof {
                        assert(cv[j as int] == cfgs@[j as int]@);
                    }
                    break;
                }
                proof {
                    assert(cv[j as int] == cfgs@[j as int]@);
                }
                j += 1;
            }
            let ghost run_end = j - i;
            proof {
                assert forall|k: int| i <= k < j implies (#[trigger] rem[k - i]).0 == rem[0].0 by {
                    assert(rem[k - i] == cv[k]);
                }
                assert forall|k: int| 0 <= k < run_end implies (#[trigger] rem[k]).0 == rem[0].0 by {
                    assert(rem[k] == cv[k + i]);
                }
                if j < cfgs@.len() {
                    assert(rem[j - i] == cv[j as int]);
                }
                lemma_run_end_unique(rem, rem[0].0, 1, run_end);
            }
            // Every member of the run must carry a value.
            let mut k: usize = i;
            let mut all_valued = true;
            while k < j
                invariant
                    i <= k <= j <= cfgs@.len(),
                    cv == cfgs@.map_values(|c: Cfg| c@),
                    rem == cv.skip(i as int),
                    all_valued <==> (forall|t: int| i <= t < k ==> (#[trigger] cv[t]).1 is Some),
                decreases cfgs@.len() - k,
            {
                proof {
                    assert(cv[k as int] == cfgs@[k as int]@);
                }
                if cfgs[k].value.is_none() {
                    all_valued = false;
                }
                k += 1;
            }
            if !all_valued {
                proof {
                    assert(rem[0].1 is Some);
                    assert(rem[0].0 != "debug_assertions".spec_bytes());
                    assert(rem[0].0 != "panic".spec_bytes());
                    assert(exists|t: int| i <= t < j && !((#[trigger] cv[t]).1 is Some));
                    let bad = choose|t: int| i <= t < j && !((#[trigger] cv[t]).1 is Some);
                    assert(rem[bad - i] == cv[bad]);
                    let end = vstd::math::min(
                        rem.len() as int,
                        vstd::math::max(1, spec_run_end(rem, rem[0].0, 1)),
                    );
                    assert(end == j - i);
                    assert(!(forall|t: int| 0 <= t < end ==> (#[trigger] rem[t]).1 is Some));
                    assert(spec_env_cfgs(rem) is None);
                }
                return Err(Error::from_display(
                    "cfg key repeats with and without a value",
                ).with_kind(ErrorKind::Parse));
            }
            // Join the run's values with commas.
            let ghost vals = Seq::new(run_end as nat, |t: int| rem[t].1->0);
            let mut val: Vec<u8> = Vec::new();
            let mut t: usize = i;
            while t < j
                invariant
                    i <= t <= j <= cfgs@.len(),
                    cv == cfgs@.map_values(|c: Cfg| c@),
                    rem == cv.skip(i as int),
                    run_end == j - i,
                    vals == Seq::new(run_end as nat, |u: int| rem[u].1->0),
                    forall|u: int| i <= u < j ==> (#[trigger] cv[u]).1 is Some,
                    val@ == spec_join_comma(vals.take(t - i)),
                decreases cfgs@.len() - t,
            {
                proof {
                    assert(cv[t as int] == cfgs@[t as int]@);
                    assert(rem[t - i] == cv[t as int]);
                }
                if t > i {
                    bytes::push_byte(&mut val, ',' as u8);
                }
                match &cfgs[t].value {
                    Some(v) => bytes::push_bytes(&mut val, v.as_slice()),
                    None => (),
                }
                proof {
                    let m = t - i;
                    assert(vals.take(m + 1).take(m) =~= vals.take(m));
                    assert(vals.take(m + 1)[m] == vals[m]);
                    assert(vals[m] == rem[m].1->0);
                    if m == 0 {
                        assert(val@ =~= spec_join_comma(vals.take(1)));
                    } else {
                        assert(val@ =~= spec_join_comma(vals.take(m)) + seq![',' as u8] + vals[m]);
                        assert(val@ =~= spec_join_comma(vals.take(m + 1)));
                    }
                }
                t += 1;
            }
            proof {
                assert(vals.take(run_end) =~= vals);
            }
            let ghost prev = envs_view(out@);
            let ghost joined_val = val@;
            proof {
                assert(ek@ =~= spec_env_key(rem[0].0));
            }
            out.push((ek, val));
            proof {
                assert(envs_view(out@) =~= prev + seq![(spec_env_key(rem[0].0), joined_val)]);
                assert(rem.skip(run_end) =~= cv.skip(j as int));
                assert(joined_val == spec_join_comma(
                    Seq::new(spec_run_end(rem, rem[0].0, 1) as nat, |u: int| rem[u].1->0),
                ));
                let tail = spec_env_cfgs(cv.skip(j as int))->0;
                assert(prev + (seq![(spec_env_key(rem[0].0), joined_val)] + tail) =~= envs_view(
                    out@,
                ) + tail);
            }
            i = j;
        }
        proof {
            assert(cv.skip(cv.len() as int).len() == 0);
            assert(envs_view(out@) + Seq::<(Seq<u8>, Seq<u8>)>::empty() =~= envs_view(out@));
        }
        Ok(out)
    }
}

} // verus!
