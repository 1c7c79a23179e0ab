//! Loaders combining a byte source with registered formats.

use vstd::prelude::*;

use crate::strutil;

use super::error::FmtError;
use super::format::AnyFormat;
use super::resolved_origin;
use super::LoadInfo;
use super::LoadResult;
use super::PreProcess;
use super::Source;
use super::ValidateConfig;

verus! {

/// The probe key `{base}.{ext}`.
pub open spec fn candidate_key(base: Seq<char>, ext: Seq<char>) -> Seq<char> {
    base + seq!['.'] + ext
}

/// The probe candidates of one format, in extension order.
pub open spec fn format_candidates(base: Seq<char>, f: AnyFormat) -> Seq<(Seq<char>, AnyFormat)> {
    Seq::new(f.spec_extensions().len(), |i: int| (candidate_key(base, f.spec_extensions()[i]), f))
}

/// All probe candidates, in format registration order.
pub open spec fn probe_candidates(base: Seq<char>, formats: Seq<AnyFormat>) -> Seq<
    (Seq<char>, AnyFormat),
>
    decreases formats.len(),
{
    if formats.len() == 0 {
        Seq::empty()
    } else {
        probe_candidates(base, formats.drop_last()) + format_candidates(base, formats.last())
    }
}

/// The first candidate whose key the contents hold, if any.
pub open spec fn spec_probe(
    cands: Seq<(Seq<char>, AnyFormat)>,
    contents: Map<Seq<char>, Seq<u8>>,
) -> Option<(Seq<char>, AnyFormat)>
    decreases cands.len(),
{
    if cands.len() == 0 {
        None
    } else if contents.contains_key(cands[0].0) {
        Some(cands[0])
    } else {
        spec_probe(cands.skip(1), contents)
    }
}

/// When no candidate key is held, the probe finds nothing.
proof fn lemma_spec_probe_none(cands: Seq<(Seq<char>, AnyFormat)>, contents: Map<Seq<char>, Seq<u8>>)
    requires
        forall|p: int| 0 <= p < cands.len() ==> !contents.contains_key((#[trigger] cands[p]).0),
    ensures
        spec_probe(cands, contents) is None,
    decreases cands.len(),
{
    if cands.len() > 0 {
        lemma_spec_probe_none(cands.skip(1), contents);
    }
}

/// The probe finds the first held candidate.
proof fn lemma_spec_probe_first(
    cands: Seq<(Seq<char>, AnyFormat)>,
    contents: Map<Seq<char>, Seq<u8>>,
    p: int,
)
    requires
        0 <= p < cands.len(),
        contents.contains_key(cands[p].0),
        forall|q: int| 0 <= q < p ==> !contents.contains_key((#[trigger] cands[q]).0),
    ensures
        spec_probe(cands, contents) == Some(cands[p]),
    decreases p,
{
    if p > 0 {
        lemma_spec_probe_first(cands.skip(1), contents, p - 1);
    }
}

/// The format whose extension list holds `ext`, first registered first.
pub open spec fn spec_format_for(formats: Seq<AnyFormat>, ext: Seq<char>) -> Option<AnyFormat>
    decreases formats.len(),
{
    if formats.len() == 0 {
        None
    } else if formats[0].spec_extensions().contains(ext) {
        Some(formats[0])
    } else {
        spec_format_for(formats.skip(1), ext)
    }
}

/// The extension of a path: what follows its last `.`, if any.
pub open spec fn spec_ext_of(path: Seq<char>) -> Option<Seq<char>> {
    if strutil::seq_has_char(path, '.') {
        Some(path.skip(1 + choose|i: int| strutil::seq_last_index_of(path, '.', i)))
    } else {
        None
    }
}

/// All probe keys `{base_name}.{ext}` of a format list, in registration
/// order: what a loader over these formats will ask its source for.
pub fn probe_keys(formats: &Vec<AnyFormat>, base_name: &str) -> (r: Vec<(String, AnyFormat)>)
    ensures
        r@.len() == probe_candidates(base_name@, formats@).len(),
        forall|q: int|
            0 <= q < r@.len() ==> ((#[trigger] r@[q]).0@, r@[q].1) == probe_candidates(
                base_name@,
                formats@,
            )[q],
{
    let dotted = strutil::concat(base_name, ".");
    proof {
        reveal_strlit(".");
        assert(dotted@ =~= base_name@ + seq!['.']);
    }
    let nf = formats.len();
    let mut out: Vec<(String, AnyFormat)> = Vec::new();
    let mut i: usize = 0;
    while i < nf
        invariant
            nf == formats@.len(),
            dotted@ == base_name@ + seq!['.'],
            0 <= i <= nf,
            out@.len() == probe_candidates(
                base_name@,
                formats@.take(i as int),
            ).len(),
            forall|q: int|
                0 <= q < out@.len() ==> ((#[trigger] out@[q]).0@, out@[q].1)
                    == probe_candidates(base_name@, formats@.take(i as int))[q],
        decreases nf - i,
    {
        let f = formats[i];
        let exts = f.extensions();
        let ne = exts.len();
        let ghost taken = formats@.take(i as int);
        let ghost before = out@;
        let mut j: usize = 0;
        while j < ne
            invariant
                ne == exts@.len(),
                ne == f.spec_extensions().len(),
                forall|q: int|
                    0 <= q < ne ==> (#[trigger] exts@[q])@ == f.spec_extensions()[q],
                dotted@ == base_name@ + seq!['.'],
                0 <= j <= ne,
                out@.len() == before.len() + j,
                forall|q: int| 0 <= q < before.len() ==> out@[q] == before[q],
                forall|q: int|
                    0 <= q < j ==> ((#[trigger] out@[before.len() + q]).0@,
                    out@[before.len() + q].1) == format_candidates(base_name@, f)[q],
            decreases ne - j,
        {
            let key = strutil::concat(dotted.as_str(), exts[j]);
            proof {
                assert(key@ =~= candidate_key(base_name@, f.spec_extensions()[j as int]));
            }
            out.push((key, f));
            j = j + 1;
        }
        proof {
            assert(formats@.take(i + 1 as int).drop_last() =~= taken);
            assert(formats@.take(i + 1 as int).last() == formats@[i as int]);
            assert(probe_candidates(base_name@, formats@.take(i + 1 as int))
                =~= probe_candidates(base_name@, taken) + format_candidates(
                base_name@,
                formats@[i as int],
            ));
            assert forall|q: int| 0 <= q < out@.len() implies ((#[trigger] out@[q]).0@,
            out@[q].1) == probe_candidates(
                base_name@,
                formats@.take(i + 1 as int),
            )[q] by {
                let pc = probe_candidates(base_name@, formats@.take(i + 1 as int));
                if q < before.len() {
                    assert(out@[q] == before[q]);
                    assert((before[q].0@, before[q].1) == probe_candidates(
                        base_name@,
                        taken,
                    )[q]);
                    assert(pc[q] == probe_candidates(base_name@, taken)[q]);
                } else {
                    assert(out@[before.len() + (q - before.len())] == out@[q]);
                    assert((out@[q].0@, out@[q].1) == format_candidates(base_name@, f)[q
                        - before.len()]);
                    assert(pc[q] == format_candidates(
                        base_name@,
                        formats@[i as int],
                    )[q - before.len()]);
                }
            }
        }
        i = i + 1;
    }
    proof {
        assert(formats@.take(nf as int) =~= formats@);
    }
    out
}

/// A loader that probes registered formats over one source.
pub struct DynLoader<S> {
    source: S,
    formats: Vec<AnyFormat>,
}

/// Builder for [`DynLoader`].
pub struct DynLoaderBuilder<S> {
    source: Option<S>,
    formats: Vec<AnyFormat>,
}

impl<S: Source> DynLoaderBuilder<S> {
    /// The source chosen so far.
    pub closed spec fn spec_source(&self) -> Option<S> {
        self.source
    }

    /// The formats registered so far, in order.
    pub closed spec fn spec_formats(&self) -> Seq<AnyFormat> {
        self.formats@
    }

    /// Creates an empty builder.
    pub fn new() -> (r: Self)
        ensures
            r.spec_source() is None,
            r.spec_formats() == Seq::<AnyFormat>::empty(),
    {
        let r = DynLoaderBuilder { source: None, formats: Vec::new() };
        proof {
            assert(r.spec_formats() =~= Seq::<AnyFormat>::empty());
        }
        r
    }

    /// Sets the source.
    pub fn source(self, source: S) -> (r: Self)
        ensures
            r.spec_source() == Some(source),
            r.spec_formats() == self.spec_formats(),
    {
        DynLoaderBuilder { source: Some(source), formats: self.formats }
    }

    /// Registers a format; earlier registrations win ties.
    pub fn format(self, format: AnyFormat) -> (r: Self)
        ensures
            r.spec_source() == self.spec_source(),
            r.spec_formats() == self.spec_formats().push(format),
    {
        let mut formats = self.formats;
        formats.push(format);
        DynLoaderBuilder { source: self.source, formats }
    }

    /// Builds the loader; a source and at least one format are required.
    pub fn build(self) -> (r: Result<DynLoader<S>, &'static str>)
        ensures
            match r {
                Ok(l) => self.spec_source() matches Some(s) && l.spec_source() == s
                    && l.spec_formats() == self.spec_formats() && self.spec_formats().len() > 0,
                Err(_) => self.spec_source() is None || self.spec_formats().len() == 0,
            },
    {
        let source = match self.source {
            Some(s) => s,
            None => {
                return Err("source is required");
            },
        };
        if self.formats.len() == 0 {
            return Err("at least one format is required");
        }
        Ok(DynLoader { source, formats: self.formats })
    }
}

impl<S: Source> DynLoader<S> {
    /// The underlying source.
    pub closed spec fn spec_source(&self) -> S {
        self.source
    }

    /// The abstract contents of the underlying source.
    pub open spec fn contents(&self) -> Map<Seq<char>, Seq<u8>> {
        self.spec_source().contents()
    }

    /// The loader is usable when its source's invariant holds.
    pub open spec fn inv(&self) -> bool {
        self.spec_source().inv()
    }

    /// The registered formats, in order.
    pub closed spec fn spec_formats(&self) -> Seq<AnyFormat> {
        self.formats@
    }

    /// Creates a loader from a source and a format list.
    pub fn new(source: S, formats: Vec<AnyFormat>) -> (r: Self)
        ensures
            r.spec_source() == source,
            r.spec_formats() == formats@,
    {
        DynLoader { source, formats }
    }

    /// Creates an empty builder.
    pub fn builder() -> (r: DynLoaderBuilder<S>)
        ensures
            r.spec_source() is None,
            r.spec_formats() == Seq::<AnyFormat>::empty(),
    {
        DynLoaderBuilder::new()
    }

    /// Finds the first existing probe candidate `{base_name}.{ext}`, in
    /// format registration order.
    fn probe(&self, base_name: &str) -> (r: Option<(String, AnyFormat)>)
        requires
            self.inv(),
        ensures
            match r {
                Some(found) => spec_probe(
                    probe_candidates(base_name@, self.spec_formats()),
                    self.contents(),
                ) == Some((found.0@, found.1)) && self.contents().contains_key(found.0@),
                None => spec_probe(
                    probe_candidates(base_name@, self.spec_formats()),
                    self.contents(),
                ) is None,
            },
    {
        let ghost cands = probe_candidates(base_name@, self.spec_formats());
        let keys = probe_keys(&self.formats, base_name);
        let n = keys.len();
        let mut p: usize = 0;
        while p < n
            invariant
                self.inv(),
                cands == probe_candidates(base_name@, self.spec_formats()),
                n == keys@.len(),
                n == cands.len(),
                forall|q: int|
                    0 <= q < n ==> ((#[trigger] keys@[q]).0@, keys@[q].1) == cands[q],
                0 <= p <= n,
                forall|q: int| 0 <= q < p ==> !self.contents().contains_key((#[trigger] cands[q]).0),
            decreases n - p,
        {
            if self.source.has_key(keys[p].0.as_str()) {
                proof {
                    lemma_spec_probe_first(cands, self.contents(), p as int);
                }
                let pair = (keys[p].0.clone(), keys[p].1);
                return Some(pair);
            }
            p = p + 1;
        }
        proof {
            lemma_spec_probe_none(cands, self.contents());
        }
        None
    }

    /// Loads the configuration under the first existing candidate key,
    /// probing registered formats by extension.
    ///
    /// Returns `NotFound` exactly when no candidate key exists in the
    /// source. Parsing and validation decide between success and
    /// `Invalid`.
    pub fn load<T: serde::de::DeserializeOwned + PreProcess + ValidateConfig>(
        &self,
        base_name: &str,
    ) -> (r: LoadResult<T>)
        requires
            self.inv(),
        ensures
            (r is NotFound) <==> spec_probe(
                probe_candidates(base_name@, self.spec_formats()),
                self.contents(),
            ) is None,
            r matches LoadResult::Loaded { value, info } ==> spec_probe(
                probe_candidates(base_name@, self.spec_formats()),
                self.contents(),
            ) matches Some(found) && info.path@ == resolved_origin(self.spec_source(), found.0)
                && info.format@ == found.1.spec_extensions()[0],
            r matches LoadResult::Invalid(e) ==> !(e is NotFound),
    {
        match self.probe(base_name) {
            Some(found) => {
                let (key, format) = found;
                self.load_explicit(key.as_str(), format)
            },
            None => LoadResult::NotFound,
        }
    }

    /// Loads a specific path, selecting the parser by its extension.
    ///
    /// A path without an extension is `Invalid`; one whose extension no
    /// registered format claims is `NotFound`; otherwise the file is
    /// loaded exactly as named.
    pub fn load_file<T: serde::de::DeserializeOwned + PreProcess + ValidateConfig>(
        &self,
        path: &str,
    ) -> (r: LoadResult<T>)
        requires
            self.inv(),
        ensures
            spec_ext_of(path@) is None ==> (r matches LoadResult::Invalid(e) && e is ParseError),
            spec_ext_of(path@) matches Some(ext) ==> match spec_format_for(
                self.spec_formats(),
                ext,
            ) {
                None => r is NotFound,
                Some(f) => ((r is NotFound) <==> !self.contents().contains_key(path@)) && (
                r matches LoadResult::Loaded { value, info } ==> info.path@ == resolved_origin(
                    self.spec_source(),
                    path@,
                ) && info.format@ == f.spec_extensions()[0]) && (
                r matches LoadResult::Invalid(e) ==> !(e is NotFound)),
            },
    {
        let ext: String;
        let n = path.unicode_len();
        match strutil::rfind_char(path, '.') {
            Some(i) => {
                proof {
                    strutil::lemma_seq_last_index_exists(path@, '.');
                    let w = choose|j: int| strutil::seq_last_index_of(path@, '.', j);
                    assert(strutil::seq_last_index_of(path@, '.', i as int));
                    assert(w == i as int);
                }
                ext = strutil::substring(path, i + 1, n);
                proof {
                    assert(ext@ =~= path@.skip(i + 1 as int));
                    assert(spec_ext_of(path@) == Some(ext@));
                }
            },
            None => {
                return LoadResult::Invalid(
                    FmtError::ParseError(strutil::to_string("missing extension")),
                );
            },
        }
        let nf = self.formats.len();
        proof {
            assert(self.spec_formats().skip(0) =~= self.spec_formats());
        }
        let mut i: usize = 0;
        while i < nf
            invariant
                self.inv(),
                nf == self.spec_formats().len(),
                0 <= i <= nf,
                spec_format_for(self.spec_formats(), ext@) == spec_format_for(
                    self.spec_formats().skip(i as int),
                    ext@,
                ),
                spec_ext_of(path@) == Some(ext@),
            decreases nf - i,
        {
            let f = self.formats[i];
            proof {
                assert(self.spec_formats().skip(i as int)[0] == self.spec_formats()[i as int]);
                assert(self.spec_formats().skip(i as int).skip(1) =~= self.spec_formats().skip(
                    i + 1 as int,
                ));
            }
            if Self::claims_ext(f, ext.as_str()) {
                return self.load_explicit(path, f);
            }
            i = i + 1;
        }
        proof {
            assert(self.spec_formats().skip(nf as int) =~= Seq::<AnyFormat>::empty());
        }
        LoadResult::NotFound
    }

    /// True if the format's extension list claims `ext`.
    fn claims_ext(f: AnyFormat, ext: &str) -> (r: bool)
        ensures
            r == f.spec_extensions().contains(ext@),
    {
        let exts = f.extensions();
        let ne = exts.len();
        let mut j: usize = 0;
        while j < ne
            invariant
                ne == exts@.len(),
                ne == f.spec_extensions().len(),
                forall|q: int| 0 <= q < ne ==> (#[trigger] exts@[q])@ == f.spec_extensions()[q],
                0 <= j <= ne,
                forall|q: int| 0 <= q < j ==> f.spec_extensions()[q] != ext@,
            decreases ne - j,
        {
            if strutil::str_eq(exts[j], ext) {
                proof {
                    assert(f.spec_extensions()[j as int] == ext@);
                }
                return true;
            }
            j = j + 1;
        }
        proof {
            if f.spec_extensions().contains(ext@) {
                let q = choose|q: int|
                    0 <= q < f.spec_extensions().len() && f.spec_extensions()[q] == ext@;
                assert(false);
            }
        }
        false
    }

    /// Validates the configuration under a base name without keeping the
    /// value. When no candidate key exists, the error is `NotFound`.
    pub fn validate<T: serde::de::DeserializeOwned + PreProcess + ValidateConfig>(
        &self,
        base_name: &str,
    ) -> (r: Result<(), FmtError>)
        requires
            self.inv(),
        ensures
            spec_probe(probe_candidates(base_name@, self.spec_formats()), self.contents())
                is None ==> (r matches Err(e) && e is NotFound),
    {
        match self.load::<T>(base_name) {
            LoadResult::Loaded { .. } => Ok(()),
            LoadResult::Invalid(e) => Err(e),
            LoadResult::NotFound => Err(FmtError::NotFound),
        }
    }

    /// Loads the configuration under an exact key with a chosen format:
    /// read, parse, pre-process, inject context, validate.
    fn load_explicit<T: serde::de::DeserializeOwned + PreProcess + ValidateConfig>(
        &self,
        key: &str,
        format: AnyFormat,
    ) -> (r: LoadResult<T>)
        requires
            self.inv(),
        ensures
            (r is NotFound) <==> !self.contents().contains_key(key@),
            r matches LoadResult::Loaded { value, info } ==> info.path@ == resolved_origin(
                self.spec_source(),
                key@,
            ) && info.format@ == format.spec_extensions()[0],
            r matches LoadResult::Invalid(e) ==> !(e is NotFound),
    {
        load_pipeline(&self.source, key, format)
    }
}

/// The shared load pipeline over any source: read the key's bytes, parse
/// them with the format, run the post-parse hooks, and validate. The
/// reported origin is the canonical path the source captured for the
/// key, or the key itself when none was.
fn load_pipeline<S: Source, T: serde::de::DeserializeOwned + PreProcess + ValidateConfig>(
    source: &S,
    key: &str,
    format: AnyFormat,
) -> (r: LoadResult<T>)
    requires
        source.inv(),
    ensures
        (r is NotFound) <==> !source.contents().contains_key(key@),
        r matches LoadResult::Loaded { value, info } ==> info.path@ == resolved_origin(
            *source,
            key@,
        ) && info.format@ == format.spec_extensions()[0],
        r matches LoadResult::Invalid(e) ==> !(e is NotFound),
{
    let bytes = match source.read(key) {
        Ok(b) => b,
        Err(e) => {
            return match e {
                FmtError::NotFound => LoadResult::NotFound,
                other => LoadResult::Invalid(other),
            };
        },
    };
    match format.parse::<T>(bytes.as_slice()) {
        Ok(obj) => {
            let mut obj = obj;
            obj.pre_process();
            obj.set_context(key);
            match obj.validate_config() {
                Ok(u) => {
                    let exts = format.extensions();
                    let format_name = exts[0];
                    let origin = match source.origin_of(key) {
                        Some(o) => o,
                        None => strutil::to_string(key),
                    };
                    LoadResult::Loaded {
                        value: obj,
                        info: LoadInfo { path: origin, format: format_name },
                    }
                },
                Err(e) => LoadResult::Invalid(e),
            }
        },
        Err(e) => LoadResult::Invalid(e),
    }
}

/// A loader that combines one source and one fixed format.
pub struct StaticLoader<S> {
    /// The byte source.
    pub source: S,
    /// The format used for every load.
    pub format: AnyFormat,
}

impl<S: Source> StaticLoader<S> {
    /// Creates a new loader.
    pub fn new(source: S, format: AnyFormat) -> (r: Self)
        ensures
            r.source == source,
            r.format == format,
    {
        StaticLoader { source, format }
    }

    /// Loads and parses the configuration under an exact key.
    pub fn load<T: serde::de::DeserializeOwned + PreProcess + ValidateConfig>(
        &self,
        key: &str,
    ) -> (r: LoadResult<T>)
        requires
            self.source.inv(),
        ensures
            (r is NotFound) <==> !self.source.contents().contains_key(key@),
            r matches LoadResult::Loaded { value, info } ==> info.path@ == resolved_origin(
                self.source,
                key@,
            ) && info.format@ == self.format.spec_extensions()[0],
            r matches LoadResult::Invalid(e) ==> !(e is NotFound),
    {
        load_pipeline(&self.source, key, self.format)
    }
}

} // verus!
