//! Reading a canonical graph back: the incremental pass feeds on a prior
//! run's document.
//!
//! The reader is deliberately strict about meaning though lenient about
//! shape: whatever it accepts is re-serialized and compared against the
//! input, so a returned graph always serializes back to the very bytes it
//! was read from. A document this tool did not write is rejected.

use vstd::prelude::*;

use crate::bytes;
use crate::error::{Error, ErrorKind};
use crate::input::{DepKind, Platform, Source};
use crate::nargo::{PkgId, TargetKind};
use crate::output::{ManifestTarget, Metadata, Package, PkgDep, PkgDepKind, SriHash};
use crate::ser::spec_metadata_doc;

verus! {

/// A parsed document value.
pub enum Json {
    Bool(bool),
    Str(Vec<u8>),
    Arr(Vec<Json>),
    Obj(Vec<(Vec<u8>, Json)>),
}

/// The first index at or after `i` that holds no blank byte.
fn skip_ws(s: &[u8], i: usize) -> (r: usize)
    requires
        i <= s@.len(),
    ensures
        i <= r <= s@.len(),
{
    let mut j = i;
    while j < s.len() && (s[j] == ' ' as u8 || s[j] == '\n' as u8 || s[j] == '\r' as u8 || s[j]
        == '\t' as u8)
        invariant
            i <= j <= s@.len(),
        decreases s@.len() - j,
    {
        j += 1;
    }
    j
}

/// Read a quoted string starting at `i`, unescaping its body.
fn parse_string(s: &[u8], i: usize) -> (r: Option<(Vec<u8>, usize)>)
    requires
        i <= s@.len(),
    ensures
        match r {
            Some(p) => i < p.1 <= s@.len(),
            None => true,
        },
{
    if i >= s.len() || s[i] != '"' as u8 {
        return None;
    }
    let mut out: Vec<u8> = Vec::new();
    let mut j = i + 1;
    loop
        invariant
            i < j <= s@.len(),
        decreases s@.len() - j,
    {
        if j >= s.len() {
            return None;
        }
        let c = s[j];
        if c == '"' as u8 {
            return Some((out, j + 1));
        }
        if c == '\\' as u8 {
            if j + 1 >= s.len() {
                return None;
            }
            let e = s[j + 1];
            if e == '"' as u8 || e == '\\' as u8 || e == '/' as u8 {
                out.push(e);
                j += 2;
            } else if e == 'n' as u8 {
                out.push('\n' as u8);
                j += 2;
            } else if e == 'r' as u8 {
                out.push('\r' as u8);
                j += 2;
            } else if e == 't' as u8 {
                out.push('\t' as u8);
                j += 2;
            } else if e == 'u' as u8 {
                if s.len() - j <= 5 {
                    return None;
                }
                if s[j + 2] != '0' as u8 || s[j + 3] != '0' as u8 {
                    return None;
                }
                let hi = match hex_val(s[j + 4]) {
                    Some(v) => v,
                    None => {
                        return None;
                    },
                };
                let lo = match hex_val(s[j + 5]) {
                    Some(v) => v,
                    None => {
                        return None;
                    },
                };
                out.push(hi * 16 + lo);
                j += 6;
            } else {
                return None;
            }
        } else {
            out.push(c);
            j += 1;
        }
    }
}

/// The value of one hexadecimal digit.
fn hex_val(c: u8) -> (r: Option<u8>)
    ensures
        match r {
            Some(v) => v < 16,
            None => true,
        },
{
    if '0' as u8 <= c && c <= '9' as u8 {
        Some(c - '0' as u8)
    } else if 'a' as u8 <= c && c <= 'f' as u8 {
        Some(c - 'a' as u8 + 10)
    } else if 'A' as u8 <= c && c <= 'F' as u8 {
        Some(c - 'A' as u8 + 10)
    } else {
        None
    }
}

/// Read one value starting at `i`: an object, an array, a string, or a
/// boolean.
fn parse_value(s: &[u8], i: usize) -> (r: Option<(Json, usize)>)
    requires
        i <= s@.len(),
    ensures
        match r {
            Some(p) => i < p.1 <= s@.len(),
            None => true,
        },
    decreases s@.len() - i,
{
    if i >= s.len() {
        return None;
    }
    let c = s[i];
    if c == '"' as u8 {
        match parse_string(s, i) {
            Some((v, j)) => Some((Json::Str(v), j)),
            None => None,
        }
    } else if c == 't' as u8 {
        if s.len() - i >= 4 && s[i + 1] == 'r' as u8 && s[i + 2] == 'u' as u8 && s[i + 3]
            == 'e' as u8 {
            Some((Json::Bool(true), i + 4))
        } else {
            None
        }
    } else if c == 'f' as u8 {
        if s.len() - i >= 5 && s[i + 1] == 'a' as u8 && s[i + 2] == 'l' as u8 && s[i + 3]
            == 's' as u8 && s[i + 4] == 'e' as u8 {
            Some((Json::Bool(false), i + 5))
        } else {
            None
        }
    } else if c == '[' as u8 {
        let mut items: Vec<Json> = Vec::new();
        let mut j = skip_ws(s, i + 1);
        if j < s.len() && s[j] == ']' as u8 {
            return Some((Json::Arr(items), j + 1));
        }
        loop
            invariant
                i < j <= s@.len(),
            decreases s@.len() - j,
        {
            let (v, j2) = match parse_value(s, j) {
                Some(p) => p,
                None => {
                    return None;
                },
            };
            items.push(v);
            let j3 = skip_ws(s, j2);
            if j3 < s.len() && s[j3] == ',' as u8 {
                let j4 = skip_ws(s, j3 + 1);
                if j4 <= j {
                    return None;
                }
                j = j4;
            } else if j3 < s.len() && s[j3] == ']' as u8 {
                return Some((Json::Arr(items), j3 + 1));
            } else {
                return None;
            }
        }
    } else if c == '{' as u8 {
        let mut entries: Vec<(Vec<u8>, Json)> = Vec::new();
        let mut j = skip_ws(s, i + 1);
        if j < s.len() && s[j] == '}' as u8 {
            return Some((Json::Obj(entries), j + 1));
        }
        loop
            invariant
                i < j <= s@.len(),
            decreases s@.len() - j,
        {
            let (k, j2) = match parse_string(s, j) {
                Some(p) => p,
                None => {
                    return None;
                },
            };
            let j3 = skip_ws(s, j2);
            if j3 >= s.len() || s[j3] != ':' as u8 {
                return None;
            }
            let j4 = skip_ws(s, j3 + 1);
            if j4 >= s.len() {
                return None;
            }
            let (v, j5) = match parse_value(s, j4) {
                Some(p) => p,
                None => {
                    return None;
                },
            };
            entries.push((k, v));
            let j6 = skip_ws(s, j5);
            if j6 < s.len() && s[j6] == ',' as u8 {
                let j7 = skip_ws(s, j6 + 1);
                if j7 <= j {
                    return None;
                }
                j = j7;
            } else if j6 < s.len() && s[j6] == '}' as u8 {
                return Some((Json::Obj(entries), j6 + 1));
            } else {
                return None;
            }
        }
    } else {
        None
    }
}

/// The first value under a key of an object.
fn obj_get<'a>(o: &'a Vec<(Vec<u8>, Json)>, key: &str) -> (r: Option<&'a Json>) {
    let kb = bytes::lit(key);
    let mut i: usize = 0;
    while i < o.len()
        invariant
            i <= o@.len(),
        decreases o@.len() - i,
    {
        if bytes::bytes_eq(o[i].0.as_slice(), kb.as_slice()) {
            return Some(&o[i].1);
        }
        i += 1;
    }
    None
}

/// A list of strings from an array value.
fn conv_strs(j: &Json) -> (r: Option<Vec<Vec<u8>>>) {
    match j {
        Json::Arr(items) => {
            let mut out: Vec<Vec<u8>> = Vec::new();
            let mut i: usize = 0;
            while i < items.len()
                invariant
                    i <= items@.len(),
                decreases items@.len() - i,
            {
                match &items[i] {
                    Json::Str(v) => {
                        out.push(bytes::copy_range(v.as_slice(), 0, v.len()));
                    },
                    _ => {
                        return None;
                    },
                }
                i += 1;
            }
            Some(out)
        },
        _ => None,
    }
}

/// A string value's bytes.
fn conv_str(j: &Json) -> (r: Option<Vec<u8>>) {
    match j {
        Json::Str(v) => Some(bytes::copy_range(v.as_slice(), 0, v.len())),
        _ => None,
    }
}

/// An optional string field of an object.
fn conv_opt_str(o: &Vec<(Vec<u8>, Json)>, key: &str) -> (r: Option<Option<Vec<u8>>>) {
    match obj_get(o, key) {
        Some(v) => match conv_str(v) {
            Some(b) => Some(Some(b)),
            None => None,
        },
        None => Some(None),
    }
}

/// One activation record from its object form.
fn conv_kind(j: &Json) -> (r: Option<PkgDepKind>) {
    let o = match j {
        Json::Obj(o) => o,
        _ => {
            return None;
        },
    };
    let kind = match obj_get(o, "kind") {
        Some(v) => {
            let kb = match conv_str(v) {
                Some(b) => b,
                None => {
                    return None;
                },
            };
            if bytes::bytes_eq(kb.as_slice(), bytes::lit("dev").as_slice()) {
                DepKind::Dev
            } else if bytes::bytes_eq(kb.as_slice(), bytes::lit("build").as_slice()) {
                DepKind::Build
            } else {
                return None;
            }
        },
        None => DepKind::Normal,
    };
    let target = match obj_get(o, "target") {
        Some(v) => {
            let tb = match conv_str(v) {
                Some(b) => b,
                None => {
                    return None;
                },
            };
            Some(Platform(crate::ser::jstr_bytes(tb.as_slice())))
        },
        None => None,
    };
    let optional = match obj_get(o, "optional") {
        Some(Json::Bool(b)) => *b,
        Some(_) => {
            return None;
        },
        None => false,
    };
    let default = match obj_get(o, "default") {
        Some(Json::Bool(b)) => *b,
        Some(_) => {
            return None;
        },
        None => true,
    };
    let features = match obj_get(o, "features") {
        Some(v) => match conv_strs(v) {
            Some(f) => f,
            None => {
                return None;
            },
        },
        None => Vec::new(),
    };
    Some(PkgDepKind { kind, target, optional, default, features })
}

/// One reconciled edge from its object form.
fn conv_dep(j: &Json) -> (r: Option<PkgDep>) {
    let o = match j {
        Json::Obj(o) => o,
        _ => {
            return None;
        },
    };
    let name = match obj_get(o, "name") {
        Some(v) => match conv_str(v) {
            Some(b) => b,
            None => {
                return None;
            },
        },
        None => {
            return None;
        },
    };
    let karr = match obj_get(o, "kinds") {
        Some(Json::Arr(items)) => items,
        _ => {
            return None;
        },
    };
    let mut kinds: Vec<PkgDepKind> = Vec::new();
    let mut i: usize = 0;
    while i < karr.len()
        invariant
            i <= karr@.len(),
        decreases karr@.len() - i,
    {
        match conv_kind(&karr[i]) {
            Some(k) => kinds.push(k),
            None => {
                return None;
            },
        }
        i += 1;
    }
    Some(PkgDep { name, kinds })
}

/// One build target from its object form.
fn conv_target(j: &Json) -> (r: Option<ManifestTarget>) {
    let o = match j {
        Json::Obj(o) => o,
        _ => {
            return None;
        },
    };
    let name = match obj_get(o, "name") {
        Some(v) => match conv_str(v) {
            Some(b) => b,
            None => {
                return None;
            },
        },
        None => {
            return None;
        },
    };
    let kind = match obj_get(o, "kind") {
        Some(v) => {
            let kb = match conv_str(v) {
                Some(b) => b,
                None => {
                    return None;
                },
            };
            match TargetKind::from_str(kb.as_slice()) {
                Ok(k) => k,
                Err(_) => {
                    return None;
                },
            }
        },
        None => {
            return None;
        },
    };
    let crate_types = match obj_get(o, "crate_types") {
        Some(v) => match conv_strs(v) {
            Some(c) => c,
            None => {
                return None;
            },
        },
        None => {
            return None;
        },
    };
    let required_features = match obj_get(o, "required_features") {
        Some(v) => match conv_strs(v) {
            Some(c) => c,
            None => {
                return None;
            },
        },
        None => Vec::new(),
    };
    let path = match obj_get(o, "path") {
        Some(v) => match conv_str(v) {
            Some(b) => b,
            None => {
                return None;
            },
        },
        None => {
            return None;
        },
    };
    let edition = match obj_get(o, "edition") {
        Some(v) => match conv_str(v) {
            Some(b) => b,
            None => {
                return None;
            },
        },
        None => {
            return None;
        },
    };
    Some(ManifestTarget { name, kind, crate_types, required_features, path, edition })
}

/// A feature map from its object form.
fn conv_features(j: &Json) -> (r: Option<Vec<(Vec<u8>, Vec<Vec<u8>>)>>) {
    let o = match j {
        Json::Obj(o) => o,
        _ => {
            return None;
        },
    };
    let mut out: Vec<(Vec<u8>, Vec<Vec<u8>>)> = Vec::new();
    let mut i: usize = 0;
    while i < o.len()
        invariant
            i <= o@.len(),
        decreases o@.len() - i,
    {
        let key = bytes::copy_range(o[i].0.as_slice(), 0, o[i].0.len());
        let val = match conv_strs(&o[i].1) {
            Some(v) => v,
            None => {
                return None;
            },
        };
        out.push((key, val));
        i += 1;
    }
    Some(out)
}

/// One package from its object form.
fn conv_package(j: &Json) -> (r: Option<Package>) {
    let o = match j {
        Json::Obj(o) => o,
        _ => {
            return None;
        },
    };
    let name = match conv_opt_str(o, "name") {
        Some(Some(b)) => b,
        _ => {
            return None;
        },
    };
    let version = match conv_opt_str(o, "version") {
        Some(Some(b)) => b,
        _ => {
            return None;
        },
    };
    let source = match conv_opt_str(o, "source") {
        Some(Some(b)) => Some(Source(b)),
        Some(None) => None,
        None => {
            return None;
        },
    };
    let hash = match conv_opt_str(o, "hash") {
        Some(Some(b)) => Some(SriHash(b)),
        Some(None) => None,
        None => {
            return None;
        },
    };
    let path = match conv_opt_str(o, "path") {
        Some(p) => p,
        None => {
            return None;
        },
    };
    let edition = match conv_opt_str(o, "edition") {
        Some(Some(b)) => b,
        _ => {
            return None;
        },
    };
    let rust_version = match conv_opt_str(o, "rust_version") {
        Some(p) => p,
        None => {
            return None;
        },
    };
    let default_run = match conv_opt_str(o, "default_run") {
        Some(p) => p,
        None => {
            return None;
        },
    };
    let links = match conv_opt_str(o, "links") {
        Some(p) => p,
        None => {
            return None;
        },
    };
    let features = match obj_get(o, "features") {
        Some(v) => match conv_features(v) {
            Some(f) => f,
            None => {
                return None;
            },
        },
        None => {
            return None;
        },
    };
    let dobj = match obj_get(o, "deps") {
        Some(Json::Obj(d)) => d,
        _ => {
            return None;
        },
    };
    let mut deps: Vec<(PkgId, PkgDep)> = Vec::new();
    let mut i: usize = 0;
    while i < dobj.len()
        invariant
            i <= dobj@.len(),
        decreases dobj@.len() - i,
    {
        let key = PkgId(bytes::copy_range(dobj[i].0.as_slice(), 0, dobj[i].0.len()));
        let val = match conv_dep(&dobj[i].1) {
            Some(v) => v,
            None => {
                return None;
            },
        };
        deps.push((key, val));
        i += 1;
    }
    let tarr = match obj_get(o, "targets") {
        Some(Json::Arr(t)) => t,
        _ => {
            return None;
        },
    };
    let mut targets: Vec<ManifestTarget> = Vec::new();
    let mut t: usize = 0;
    while t < tarr.len()
        invariant
            t <= tarr@.len(),
        decreases tarr@.len() - t,
    {
        match conv_target(&tarr[t]) {
            Some(v) => targets.push(v),
            None => {
                return None;
            },
        }
        t += 1;
    }
    Some(
        Package {
            name,
            version,
            source,
            hash,
            path,
            edition,
            rust_version,
            default_run,
            links,
            features,
            deps,
            targets,
        },
    )
}

/// A member list from its array form.
fn conv_ids(j: &Json) -> (r: Option<Vec<PkgId>>) {
    match conv_strs(j) {
        Some(v) => {
            let mut out: Vec<PkgId> = Vec::new();
            let mut v = v;
            while v.len() > 0
                decreases v@.len(),
            {
                let b = v.remove(0);
                out.push(PkgId(b));
            }
            Some(out)
        },
        None => None,
    }
}

/// A whole graph from its object form.
fn conv_metadata(j: &Json) -> (r: Option<Metadata>) {
    let o = match j {
        Json::Obj(o) => o,
        _ => {
            return None;
        },
    };
    let pobj = match obj_get(o, "packages") {
        Some(Json::Obj(p)) => p,
        _ => {
            return None;
        },
    };
    let mut packages: Vec<(PkgId, Package)> = Vec::new();
    let mut i: usize = 0;
    while i < pobj.len()
        invariant
            i <= pobj@.len(),
        decreases pobj@.len() - i,
    {
        let key = PkgId(bytes::copy_range(pobj[i].0.as_slice(), 0, pobj[i].0.len()));
        let val = match conv_package(&pobj[i].1) {
            Some(v) => v,
            None => {
                return None;
            },
        };
        packages.push((key, val));
        i += 1;
    }
    let workspace_members = match obj_get(o, "workspace_members") {
        Some(v) => match conv_ids(v) {
            Some(m) => m,
            None => {
                return None;
            },
        },
        None => {
            return None;
        },
    };
    let workspace_default_members = match obj_get(o, "workspace_default_members") {
        Some(v) => match conv_ids(v) {
            Some(m) => m,
            None => {
                return None;
            },
        },
        None => {
            return None;
        },
    };
    Some(Metadata { packages, workspace_members, workspace_default_members })
}

impl Metadata {
    /// Read a canonical graph back from its serialized form. A returned
    /// graph serializes to exactly the input bytes, so feeding a graph's
    /// own serialization back yields the graph's own bytes again; anything
    /// that is not this serializer's output is rejected.
    ///
    /// A caller that has decoded the document itself can hand its decoding
    /// in as `candidate`: acceptance is then owed whenever the candidate is
    /// authentic, that is, serializes to the input. Without a candidate the
    /// built-in reader decodes the document and the same re-serialization
    /// check gates what it found.
    pub fn deserialize(input: &[u8], candidate: Option<Metadata>) -> (r: Option<Metadata>)
        ensures
            match r {
                Some(g) => spec_metadata_doc(g@) == input@,
                None => true,
            },
            (candidate matches Some(c) && spec_metadata_doc(c@) == input@) ==> r is Some,
    {
        match candidate {
            Some(c) => {
                if c.matches_serialized(input) {
                    return Some(c);
                }
            },
            None => (),
        }
        let start = skip_ws(input, 0);
        let (j, _end) = match parse_value(input, start) {
            Some(p) => p,
            None => {
                return None;
            },
        };
        let g = match conv_metadata(&j) {
            Some(g) => g,
            None => {
                return None;
            },
        };
        let again = g.serialize_pretty();
        if bytes::bytes_eq(again.as_slice(), input) {
            Some(g)
        } else {
            None
        }
    }

    /// The round trip law: any graph the reader returns for a graph's own
    /// serialization serializes to that same serialization. The premise on
    /// `again` is exactly what `deserialize` ensures of a graph it returns
    /// for `bytes`.
    pub proof fn lemma_serialize_round_trip(g: Metadata, again: Metadata, bytes: Seq<u8>)
        requires
            bytes == spec_metadata_doc(g@),
            spec_metadata_doc(again@) == bytes,
        ensures
            spec_metadata_doc(again@) == spec_metadata_doc(g@),
    {
    }

    /// Check-mode comparison: whether a previously written document holds
    /// exactly this graph's serialization.
    pub fn matches_serialized(&self, existing: &[u8]) -> (r: bool)
        ensures
            r == (spec_metadata_doc(self@) == existing@),
    {
        let out = self.serialize_pretty();
        bytes::bytes_eq(out.as_slice(), existing)
    }
}

} // verus!
