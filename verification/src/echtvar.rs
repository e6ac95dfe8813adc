//! The store session: archive navigation, window caching, and the
//! variant query path.

use vstd::prelude::*;

use vstd::string::StringExecFns;
use vstd::string::StringSliceAdditionalSpecFns;

use crate::EchtError;
use crate::WINDOW_SIZE;
use crate::archive;
use crate::archive::entries;
use crate::fields;
use crate::fields::EchtVar;
use crate::fields::FieldType;
use crate::jsonval;
use crate::keys;
use crate::paths;
use crate::svb;
use crate::var32;
use crate::var32::LongVariant;

verus! {

/// One open store: the archive handle, the field registry, and the
/// currently loaded window's state.
///
/// The fields are public, as the original layout had them; the
/// contracts tie the cached window to the archive for every session
/// the library itself builds — `open` establishes the empty cache and
/// `set_position` reloads it only from the archive — not for a value a
/// caller assembles from loose fields by hand.
pub struct EchtVars {
    /// The backing archive, a random-access map from entry names to
    /// compressed blobs.
    pub zip: zip::ZipArchive<std::io::Cursor<Vec<u8>>>,
    /// The chromosome of the loaded window.
    pub chrom: String,
    /// The start of the loaded window (its lowest position); `u32::MAX`
    /// until a window is loaded, which no window start ever equals.
    pub start: u32,
    /// The loaded window's sorted variant keys.
    pub var32s: Vec<u32>,
    /// The loaded window's overflow variants. Loaded with the window,
    /// not consulted by lookup.
    pub longs: Vec<LongVariant>,
    /// One value array per field, index-aligned with `var32s`.
    pub values: Vec<Vec<u32>>,
    /// The field registry, fixed at open time; `echts[i]` says how
    /// `values[i]` is handled.
    pub echts: Vec<EchtVar>,
}

/// Relies on std::str::from_utf8: it succeeds exactly on valid UTF-8,
/// and the returned str is those bytes decoded.
#[verifier::external_body]
fn utf8_str(b: &[u8]) -> (r: Option<&str>)
    ensures
        r is Some <==> vstd::utf8::valid_utf8(b@),
        r matches Some(s) ==> s@ == vstd::utf8::decode_utf8(b@),
{
    std::str::from_utf8(b).ok()
}

impl EchtVars {
    /// The session invariant: one value array per field, each field
    /// numbering its own array, every value array aligned with the keys,
    /// and the keys sorted.
    pub open spec fn wf(self) -> bool {
        &&& self.values@.len() == self.echts@.len()
        &&& forall|i: int|
            0 <= i < self.echts@.len() ==> (#[trigger] self.echts@[i].values_i) == i
        &&& forall|f: int|
            0 <= f < self.values@.len() ==> (#[trigger] self.values@[f])@.len()
                == self.var32s@.len()
        &&& keys::sorted(self.var32s@)
    }

    /// The loader's cache test: the loaded window is the one that
    /// contains the queried position, on the queried chromosome. A
    /// fresh session's `start` is `u32::MAX`, which is not a multiple
    /// of `WINDOW_SIZE`, so nothing ever hits before a first load.
    pub open spec fn window_matches(self, chrom: Seq<char>, position: u32) -> bool {
        self.chrom@ == chrom && crate::window_start_spec(position) == self.start
    }

    /// One field's value array comes from its named block in the entry
    /// map `m`: the entry exists, decodes, and `vals` is its contents.
    pub open spec fn field_block_ok(
        m: Map<Seq<char>, Seq<u8>>,
        chrom: Seq<char>,
        w: u32,
        name: Seq<char>,
        vals: Seq<u32>,
    ) -> bool {
        &&& m.contains_key(paths::entry_path_spec(chrom, w, name + ".bin"@))
        &&& svb::block_spec(m[paths::entry_path_spec(chrom, w, name + ".bin"@)]) is Some
        &&& vals == svb::block_spec(m[paths::entry_path_spec(chrom, w, name + ".bin"@)]).unwrap()
    }

    /// The decoded key block of the window, if its entry decodes.
    pub open spec fn key_block_of(m: Map<Seq<char>, Seq<u8>>, chrom: Seq<char>, w: u32) -> Option<
        Seq<u32>,
    > {
        svb::block_spec(m[paths::entry_path_spec(chrom, w, "var32.bin"@)])
    }

    /// One field's block is present, decodes, and agrees with the key
    /// count `klen`.
    pub open spec fn field_ready(
        m: Map<Seq<char>, Seq<u8>>,
        chrom: Seq<char>,
        w: u32,
        name: Seq<char>,
        klen: nat,
    ) -> bool {
        &&& m.contains_key(paths::entry_path_spec(chrom, w, name + ".bin"@))
        &&& svb::block_spec(m[paths::entry_path_spec(chrom, w, name + ".bin"@)]) is Some
        &&& svb::block_spec(m[paths::entry_path_spec(chrom, w, name + ".bin"@)]).unwrap().len()
            == klen
    }

    /// Everything a reload of the window needs: every entry present,
    /// every block decoding with exact byte accounting, every field's
    /// count agreeing with the key count, the key sums within 32 bits,
    /// and the overflow list well formed. A reload succeeds exactly
    /// when this holds.
    pub open spec fn window_ok(
        m: Map<Seq<char>, Seq<u8>>,
        chrom: Seq<char>,
        w: u32,
        echts: Seq<EchtVar>,
    ) -> bool {
        &&& m.contains_key(paths::entry_path_spec(chrom, w, "var32.bin"@))
        &&& Self::key_block_of(m, chrom, w) is Some
        &&& keys::cumsum_ok(Self::key_block_of(m, chrom, w).unwrap())
        &&& forall|f: int|
            0 <= f < echts.len() ==> Self::field_ready(
                m,
                chrom,
                w,
                (#[trigger] echts[f]).name@,
                Self::key_block_of(m, chrom, w).unwrap().len(),
            )
        &&& m.contains_key(paths::entry_path_spec(chrom, w, "too-long-for-var32.txt"@))
        &&& fields::longs_positions(
            m[paths::entry_path_spec(chrom, w, "too-long-for-var32.txt"@)],
        ) is Some
    }

    /// Every entry a reload of the window reads is present and
    /// readable. When this holds and the reload still fails, the
    /// failure is a corrupt block, never a missing entry.
    pub open spec fn window_entries_readable(
        m: Map<Seq<char>, Seq<u8>>,
        chrom: Seq<char>,
        w: u32,
        echts: Seq<EchtVar>,
    ) -> bool {
        &&& forall|f: int|
            0 <= f < echts.len() ==> m.contains_key(
                paths::entry_path_spec(chrom, w, (#[trigger] echts[f]).name@ + ".bin"@),
            )
        &&& m.contains_key(paths::entry_path_spec(chrom, w, "var32.bin"@))
        &&& m.contains_key(paths::entry_path_spec(chrom, w, "too-long-for-var32.txt"@))
    }

    /// One field's block is present and decodes; the reload moves past
    /// it without failing.
    pub open spec fn field_fine(
        m: Map<Seq<char>, Seq<u8>>,
        chrom: Seq<char>,
        w: u32,
        name: Seq<char>,
    ) -> bool {
        &&& m.contains_key(paths::entry_path_spec(chrom, w, name + ".bin"@))
        &&& svb::block_spec(m[paths::entry_path_spec(chrom, w, name + ".bin"@)]) is Some
    }

    /// Every field before `f` in registry order reads and decodes.
    pub open spec fn fields_fine_before(
        m: Map<Seq<char>, Seq<u8>>,
        chrom: Seq<char>,
        w: u32,
        echts: Seq<EchtVar>,
        f: int,
    ) -> bool {
        forall|g: int|
            0 <= g < f && g < echts.len() ==> Self::field_fine(
                m,
                chrom,
                w,
                (#[trigger] echts[g]).name@,
            )
    }

    /// The reload's first failure, walking field `f` in load order, is
    /// field `f`'s entry being absent from the archive's directory.
    pub open spec fn missing_at_field(
        m: Map<Seq<char>, Seq<u8>>,
        names: Set<Seq<char>>,
        chrom: Seq<char>,
        w: u32,
        echts: Seq<EchtVar>,
        f: int,
    ) -> bool {
        &&& 0 <= f < echts.len()
        &&& !m.contains_key(paths::entry_path_spec(chrom, w, echts[f].name@ + ".bin"@))
        &&& !names.contains(paths::entry_path_spec(chrom, w, echts[f].name@ + ".bin"@))
        &&& Self::fields_fine_before(m, chrom, w, echts, f)
    }

    /// In load order — the field blocks in registry order, then the key
    /// block with its counts and sums, then the overflow list — the
    /// first thing that fails is an entry the archive's directory does
    /// not list. A reload reports EntryNotFound exactly then; every
    /// other failure is the corrupt-block class.
    /// The reload gets past every field and first fails at the key
    /// block's entry, which the directory does not list.
    pub open spec fn missing_at_keys(
        m: Map<Seq<char>, Seq<u8>>,
        names: Set<Seq<char>>,
        chrom: Seq<char>,
        w: u32,
        echts: Seq<EchtVar>,
    ) -> bool {
        &&& Self::fields_fine_before(m, chrom, w, echts, echts.len() as int)
        &&& !m.contains_key(paths::entry_path_spec(chrom, w, "var32.bin"@))
        &&& !names.contains(paths::entry_path_spec(chrom, w, "var32.bin"@))
    }

    /// The reload gets past every block check and first fails at the
    /// overflow list's entry, which the directory does not list.
    pub open spec fn missing_at_longs(
        m: Map<Seq<char>, Seq<u8>>,
        names: Set<Seq<char>>,
        chrom: Seq<char>,
        w: u32,
        echts: Seq<EchtVar>,
    ) -> bool {
        &&& Self::fields_fine_before(m, chrom, w, echts, echts.len() as int)
        &&& m.contains_key(paths::entry_path_spec(chrom, w, "var32.bin"@))
        &&& Self::key_block_of(m, chrom, w) is Some
        &&& forall|f: int|
            0 <= f < echts.len() ==> Self::field_ready(
                m,
                chrom,
                w,
                (#[trigger] echts[f]).name@,
                Self::key_block_of(m, chrom, w).unwrap().len(),
            )
        &&& keys::cumsum_ok(Self::key_block_of(m, chrom, w).unwrap())
        &&& !m.contains_key(paths::entry_path_spec(chrom, w, "too-long-for-var32.txt"@))
        &&& !names.contains(paths::entry_path_spec(chrom, w, "too-long-for-var32.txt"@))
    }

    pub open spec fn first_failure_is_missing(
        m: Map<Seq<char>, Seq<u8>>,
        names: Set<Seq<char>>,
        chrom: Seq<char>,
        w: u32,
        echts: Seq<EchtVar>,
    ) -> bool {
        ||| exists|f: int| Self::missing_at_field(m, names, chrom, w, echts, f)
        ||| Self::missing_at_keys(m, names, chrom, w, echts)
        ||| Self::missing_at_longs(m, names, chrom, w, echts)
    }

    /// When every field's block reads and decodes, no field can be the
    /// first missing entry.
    proof fn lemma_no_field_missing(
        m: Map<Seq<char>, Seq<u8>>,
        names: Set<Seq<char>>,
        chrom: Seq<char>,
        w: u32,
        echts: Seq<EchtVar>,
    )
        requires
            Self::fields_fine_before(m, chrom, w, echts, echts.len() as int),
        ensures
            !(exists|f: int| Self::missing_at_field(m, names, chrom, w, echts, f)),
    {
        assert forall|f: int| !Self::missing_at_field(m, names, chrom, w, echts, f) by {
            if 0 <= f < echts.len() {
                assert(Self::field_fine(m, chrom, w, echts[f].name@));
            }
        }
    }

    /// What a freshly loaded window holds, in terms of the archive's
    /// entry map `m`: each field's value array is its block's decoded
    /// contents, the keys are the cumulative sums of the key block's
    /// decoded deltas, and the overflow list is the records of the
    /// overflow entry, replaced wholesale.
    pub open spec fn window_loaded(self, m: Map<Seq<char>, Seq<u8>>, chrom: Seq<char>, w: u32) -> bool {
        &&& forall|f: int|
            0 <= f < self.echts@.len() ==> Self::field_block_ok(
                m,
                chrom,
                w,
                (#[trigger] self.echts@[f]).name@,
                self.values@[f]@,
            )
        &&& m.contains_key(paths::entry_path_spec(chrom, w, "var32.bin"@))
        &&& Self::key_block_of(m, chrom, w) is Some
        &&& keys::cumsum_ok(Self::key_block_of(m, chrom, w).unwrap())
        &&& self.var32s@ == keys::cumsum_spec(Self::key_block_of(m, chrom, w).unwrap())
        &&& m.contains_key(paths::entry_path_spec(chrom, w, "too-long-for-var32.txt"@))
        &&& fields::longs_positions(
            m[paths::entry_path_spec(chrom, w, "too-long-for-var32.txt"@)],
        ) is Some
        &&& self.longs@.len() == fields::longs_positions(
            m[paths::entry_path_spec(chrom, w, "too-long-for-var32.txt"@)],
        ).unwrap().len()
        &&& forall|i: int|
            0 <= i < self.longs@.len() ==> (#[trigger] self.longs@[i]).position
                == fields::longs_positions(
                m[paths::entry_path_spec(chrom, w, "too-long-for-var32.txt"@)],
            ).unwrap()[i]
    }

    /// The vector a lookup answers from state `s` for encoded key
    /// `key`: at the leftmost index with that key, each field's raw
    /// value, with the all-ones sentinel replaced by the field's
    /// missing value; or every field's missing value when the key is
    /// absent.
    pub open spec fn lookup_result_spec(s: EchtVars, key: u32) -> Seq<i32> {
        Seq::new(
            s.echts@.len(),
            |f: int|
                match keys::find_spec(s.var32s@, key) {
                    Some(i) => {
                        let raw = (s.values@[s.echts@[f].values_i as int])@[i];
                        if raw == u32::MAX {
                            s.echts@[f].missing
                        } else {
                            raw as i32
                        }
                    },
                    None => s.echts@[f].missing,
                },
        )
    }

    /// The archive's configuration describes a readable field registry:
    /// the config entry exists, is UTF-8 within the nesting bound, and
    /// parses as a field list.
    pub open spec fn config_ok(m: Map<Seq<char>, Seq<u8>>) -> bool {
        &&& m.contains_key("echtvar/config.json"@)
        &&& vstd::utf8::valid_utf8(m["echtvar/config.json"@])
        &&& jsonval::depth_bounded(m["echtvar/config.json"@], jsonval::MAX_JSON_DEPTH as int)
        &&& fields::config_fields(vstd::utf8::decode_utf8(m["echtvar/config.json"@])) is Some
    }

    /// The field list the archive's configuration describes.
    pub open spec fn config_of(m: Map<Seq<char>, Seq<u8>>) -> Seq<(Seq<char>, int, FieldType)> {
        fields::config_fields(vstd::utf8::decode_utf8(m["echtvar/config.json"@])).unwrap()
    }

    /// Open a store over the bytes of its archive: read the central
    /// directory and parse the field configuration. This succeeds
    /// exactly when the bytes open as an archive whose configuration is
    /// readable; the registry then mirrors the configured field list,
    /// in order, and no window is loaded yet.
    #[verifier::loop_isolation(false)]
    pub fn open(data: Vec<u8>) -> (r: Result<EchtVars, EchtError>)
        ensures
            r is Ok <==> archive::zip_ok(data@) && Self::config_ok(archive::archive_entries(data@)),
            r matches Ok(s) ==> {
                &&& s.wf()
                &&& entries(s.zip) == archive::archive_entries(data@)
                &&& s.chrom@.len() == 0
                &&& s.start == u32::MAX
                &&& s.var32s@.len() == 0
                &&& s.longs@.len() == 0
                &&& s.echts@.len() == Self::config_of(archive::archive_entries(data@)).len()
                &&& forall|i: int|
                    0 <= i < s.echts@.len() ==> {
                        let fld = Self::config_of(archive::archive_entries(data@))[i];
                        &&& (#[trigger] s.echts@[i]).name@ == fld.0
                        &&& s.echts@[i].missing == fld.1
                        &&& s.echts@[i].values_i == i
                        &&& s.echts@[i].etype == fld.2
                    }
            },
            r matches Err(e) ==> (e == EchtError::BadArchive || e == EchtError::BadConfig) && (e
                == EchtError::BadArchive <==> !archive::zip_ok(data@)),
    {
        let zip = match archive::open_archive(data) {
            Ok(z) => z,
            Err(_) => {
                return Err(EchtError::BadArchive);
            },
        };
        let mut result = EchtVars {
            zip,
            chrom: String::new(),
            start: u32::MAX,
            var32s: Vec::new(),
            longs: Vec::new(),
            values: Vec::new(),
            echts: Vec::new(),
        };
        let ghost m = entries(result.zip);
        let cfg_bytes = match archive::read_entry(&mut result.zip, "echtvar/config.json") {
            Ok(b) => b,
            Err(_) => {
                return Err(EchtError::BadConfig);
            },
        };
        let cfg_text: &str = match utf8_str(cfg_bytes.as_slice()) {
            Some(s) => s,
            None => {
                return Err(EchtError::BadConfig);
            },
        };
        if !jsonval::depth_ok(cfg_bytes.as_slice(), jsonval::MAX_JSON_DEPTH) {
            return Err(EchtError::BadConfig);
        }
        proof {
            vstd::utf8::decode_utf8_encode_utf8(cfg_bytes@);
            assert(cfg_text.spec_bytes() == cfg_bytes@);
        }
        let ghost text = cfg_text@;
        let aliases = match jsonval::json5_str_members_exec(cfg_text, "alias") {
            Some(v) => v,
            None => {
                return Err(EchtError::BadConfig);
            },
        };
        let missings = match jsonval::json5_i64_members_exec(cfg_text, "missing_value") {
            Some(v) => v,
            None => {
                return Err(EchtError::BadConfig);
            },
        };
        let types = match jsonval::json5_str_members_exec(cfg_text, "type") {
            Some(v) => v,
            None => {
                return Err(EchtError::BadConfig);
            },
        };
        let ghost a = jsonval::json5_str_members(text, "alias"@).unwrap();
        let ghost ms = jsonval::json5_i64_members(text, "missing_value"@).unwrap();
        let ghost t = jsonval::json5_str_members(text, "type"@).unwrap();
        proof {
            assert(m == archive::archive_entries(data@));
            assert(cfg_bytes@ == m["echtvar/config.json"@]);
            assert(text == vstd::utf8::decode_utf8(m["echtvar/config.json"@]));
        }
        if aliases.len() != missings.len() || aliases.len() != types.len() {
            proof {
                assert(fields::config_fields(text) is None);
            }
            return Err(EchtError::BadConfig);
        }
        let n = aliases.len();
        let mut i: usize = 0;
        while i < n
            invariant
                n == aliases@.len(),
                aliases@.len() == missings@.len(),
                aliases@.len() == types@.len(),
                a == jsonval::json5_str_members(text, "alias"@).unwrap(),
                ms == jsonval::json5_i64_members(text, "missing_value"@).unwrap(),
                t == jsonval::json5_str_members(text, "type"@).unwrap(),
                jsonval::json5_str_members(text, "alias"@) is Some,
                jsonval::json5_i64_members(text, "missing_value"@) is Some,
                jsonval::json5_str_members(text, "type"@) is Some,
                a.len() == aliases@.len(),
                ms.len() == missings@.len(),
                t.len() == types@.len(),
                forall|k: int|
                    0 <= k < aliases@.len() ==> jsonval::opt_string_view(#[trigger] aliases@[k])
                        == a[k],
                forall|k: int|
                    0 <= k < missings@.len() ==> jsonval::opt_i64_view(#[trigger] missings@[k])
                        == ms[k],
                forall|k: int|
                    0 <= k < types@.len() ==> jsonval::opt_string_view(#[trigger] types@[k])
                        == t[k],
                i <= n,
                result.echts@.len() == i,
                result.values@.len() == i,
                result.var32s@.len() == 0,
                result.longs@.len() == 0,
                result.start == u32::MAX,
                result.chrom@.len() == 0,
                entries(result.zip) == m,
                forall|k: int|
                    0 <= k < i ==> (#[trigger] a[k]) is Some && (ms[k] matches Some(x) && i32::MIN
                        <= x <= i32::MAX) && fields::type_tag_valid(t[k]),
                forall|k: int|
                    0 <= k < i ==> (#[trigger] result.echts@[k]).name@ == a[k].unwrap()
                        && result.echts@[k].missing == ms[k].unwrap() && result.echts@[k].values_i
                        == k && result.echts@[k].etype == fields::type_of_tag(t[k]),
                forall|k: int| 0 <= k < i ==> (#[trigger] result.values@[k])@.len() == 0,
            decreases n - i,
        {
            let name: String = match &aliases[i] {
                Some(s) => s.clone(),
                None => {
                    proof {
                        assert(jsonval::opt_string_view(aliases@[i as int]) == a[i as int]);
                        assert(!(a[i as int] is Some));
                        assert(fields::config_fields(text) is None);
                    }
                    return Err(EchtError::BadConfig);
                },
            };
            let missing64: i64 = match missings[i] {
                Some(x) => x,
                None => {
                    proof {
                        assert(jsonval::opt_i64_view(missings@[i as int]) == ms[i as int]);
                        assert(!(ms[i as int] is Some));
                        assert(fields::config_fields(text) is None);
                    }
                    return Err(EchtError::BadConfig);
                },
            };
            if missing64 < -0x80000000i64 || missing64 > 0x7FFFFFFFi64 {
                proof {
                    assert(jsonval::opt_i64_view(missings@[i as int]) == ms[i as int]);
                    assert(ms[i as int].unwrap() < i32::MIN || ms[i as int].unwrap() > i32::MAX);
                    assert(fields::config_fields(text) is None);
                }
                return Err(EchtError::BadConfig);
            }
            let missing: i32 = missing64 as i32;
            let etype: FieldType = match &types[i] {
                None => FieldType::Integer,
                Some(tag) => {
                    if *tag == "Float".to_owned() {
                        FieldType::Float
                    } else if *tag == "Category".to_owned() {
                        FieldType::Category
                    } else if *tag == "Integer".to_owned() {
                        FieldType::Integer
                    } else {
                        proof {
                            assert(jsonval::opt_string_view(types@[i as int]) == t[i as int]);
                            assert(!fields::type_tag_valid(t[i as int]));
                            assert(fields::config_fields(text) is None);
                        }
                        return Err(EchtError::BadConfig);
                    }
                },
            };
            proof {
                assert(jsonval::opt_string_view(aliases@[i as int]) == a[i as int]);
                assert(jsonval::opt_i64_view(missings@[i as int]) == ms[i as int]);
                assert(jsonval::opt_string_view(types@[i as int]) == t[i as int]);
            }
            result.echts.push(EchtVar { name, missing, values_i: i, etype });
            result.values.push(Vec::new());
            i = i + 1;
        }
        proof {
            assert forall|k: int| 0 <= k < a.len() implies (#[trigger] a[k]) is Some by {}
            assert forall|k: int|
                0 <= k < ms.len() implies ((#[trigger] ms[k]) matches Some(x) && i32::MIN <= x
                    <= i32::MAX) by {
                assert(a[k] is Some);
            }
            assert forall|k: int| 0 <= k < t.len() implies fields::type_tag_valid(
                #[trigger] t[k],
            ) by {
                assert(a[k] is Some);
            }
            assert(fields::config_fields(text) is Some);
            assert(Self::config_ok(m));
            let flds = fields::config_fields(text).unwrap();
            assert forall|k: int| 0 <= k < result.echts@.len() implies {
                let fld = flds[k];
                &&& (#[trigger] result.echts@[k]).name@ == fld.0
                &&& result.echts@[k].missing == fld.1
                &&& result.echts@[k].values_i == k
                &&& result.echts@[k].etype == fld.2
            } by {
                assert(a[k] is Some);
            }
        }
        Ok(result)
    }

    /// Make the window containing `position` on `chromosome` the loaded
    /// one. If it already is, nothing happens at all. Otherwise every
    /// field's value block, the key block and the overflow list of the
    /// window are read and decoded into fresh arrays — which succeeds
    /// exactly when `window_ok` holds of the archive — and the loaded-
    /// window identity is updated only when all of them succeeded; on
    /// any failure the session state is left as it was.
    pub fn set_position(&mut self, chromosome: String, position: u32) -> (r: Result<
        (),
        EchtError,
    >)
        requires
            old(self).wf(),
        ensures
            final(self).wf(),
            final(self).echts == old(self).echts,
            entries(final(self).zip) == entries(old(self).zip),
            old(self).window_matches(chromosome@, position) ==> r is Ok && *final(self) == *old(
                self,
            ),
            !old(self).window_matches(chromosome@, position) ==> ((r is Ok) <==> Self::window_ok(
                entries(old(self).zip),
                chromosome@,
                position / WINDOW_SIZE,
                old(self).echts@,
            )),
            r is Ok ==> final(self).chrom@ == chromosome@ && final(self).start
                == crate::window_start_spec(position),
            r is Ok && !old(self).window_matches(chromosome@, position) ==> final(self)
                .window_loaded(entries(old(self).zip), chromosome@, position / WINDOW_SIZE),
            r matches Err(e) ==> {
                &&& (e == EchtError::EntryNotFound || e == EchtError::CorruptBlock)
                &&& final(self).chrom == old(self).chrom
                &&& final(self).start == old(self).start
                &&& final(self).var32s == old(self).var32s
                &&& final(self).longs == old(self).longs
                &&& final(self).values == old(self).values
            },
            !old(self).window_matches(chromosome@, position) ==> ((r matches Err(e) && e
                == EchtError::EntryNotFound) <==> Self::first_failure_is_missing(
                entries(old(self).zip),
                archive::zip_names(old(self).zip),
                chromosome@,
                position / WINDOW_SIZE,
                old(self).echts@,
            )),
            !old(self).window_matches(chromosome@, position) && Self::window_entries_readable(
                entries(old(self).zip),
                chromosome@,
                position / WINDOW_SIZE,
                old(self).echts@,
            ) ==> (r matches Err(e) ==> e == EchtError::CorruptBlock),
    {
        if chromosome == self.chrom && crate::window_start(position) == self.start {
            return Ok(());
        }
        let w: u32 = position / WINDOW_SIZE;
        let ghost m = entries(self.zip);
        let ghost names = archive::zip_names(self.zip);
        let mut new_values: Vec<Vec<u32>> = Vec::new();
        let mut i: usize = 0;
        while i < self.echts.len()
            invariant
                old(self).wf(),
                !old(self).window_matches(chromosome@, position),
                w == position / WINDOW_SIZE,
                self.echts == old(self).echts,
                self.chrom == old(self).chrom,
                self.start == old(self).start,
                self.var32s == old(self).var32s,
                self.longs == old(self).longs,
                self.values == old(self).values,
                entries(self.zip) == m,
                m == entries(old(self).zip),
                archive::zip_names(self.zip) == names,
                names == archive::zip_names(old(self).zip),
                i <= self.echts@.len(),
                new_values@.len() == i,
                forall|f: int|
                    0 <= f < i ==> Self::field_block_ok(
                        m,
                        chromosome@,
                        w,
                        (#[trigger] self.echts@[f]).name@,
                        new_values@[f]@,
                    ),
            decreases self.echts@.len() - i,
        {
            let mut file = self.echts[i].name.clone();
            file.append(".bin");
            let path = paths::entry_path(chromosome.as_str(), w, file.as_str());
            proof {
                assert(file@ == self.echts@[i as int].name@ + ".bin"@);
                assert(path@ == paths::entry_path_spec(
                    chromosome@,
                    w,
                    self.echts@[i as int].name@ + ".bin"@,
                ));
            }
            let bytes = match archive::read_entry(&mut self.zip, path.as_str()) {
                Ok(b) => b,
                Err(e) => {
                    proof {
                        let ech = old(self).echts@;
                        let p = paths::entry_path_spec(
                            chromosome@,
                            w,
                            ech[i as int].name@ + ".bin"@,
                        );
                        assert(!m.contains_key(p));
                        assert(Self::fields_fine_before(m, chromosome@, w, ech, i as int)) by {
                            assert forall|g: int|
                                0 <= g < i && g < ech.len() implies Self::field_fine(
                                m,
                                chromosome@,
                                w,
                                (#[trigger] ech[g]).name@,
                            ) by {
                                assert(Self::field_block_ok(
                                    m,
                                    chromosome@,
                                    w,
                                    ech[g].name@,
                                    new_values@[g]@,
                                ));
                            }
                        }
                        if e == EchtError::EntryNotFound {
                            assert(!names.contains(p));
                            assert(Self::missing_at_field(m, names, chromosome@, w, ech, i as int));
                        } else {
                            assert(names.contains(p));
                            assert forall|f: int|
                                !Self::missing_at_field(m, names, chromosome@, w, ech, f) by {
                                if 0 <= f < ech.len() {
                                    if f < i {
                                        assert(Self::field_fine(m, chromosome@, w, ech[f].name@));
                                    } else if f > i {
                                        if Self::fields_fine_before(m, chromosome@, w, ech, f) {
                                            assert(Self::field_fine(
                                                m,
                                                chromosome@,
                                                w,
                                                ech[i as int].name@,
                                            ));
                                            assert(false);
                                        }
                                    }
                                }
                            }
                            if Self::fields_fine_before(m, chromosome@, w, ech, ech.len() as int) {
                                assert(Self::field_fine(m, chromosome@, w, ech[i as int].name@));
                                assert(false);
                            }
                        }
                        if Self::window_entries_readable(m, chromosome@, w, old(self).echts@) {
                            assert(m.contains_key(paths::entry_path_spec(
                                chromosome@,
                                w,
                                old(self).echts@[i as int].name@ + ".bin"@,
                            )));
                            assert(false);
                        }
                        if Self::window_ok(m, chromosome@, w, old(self).echts@) {
                            assert(Self::field_ready(
                                m,
                                chromosome@,
                                w,
                                old(self).echts@[i as int].name@,
                                Self::key_block_of(m, chromosome@, w).unwrap().len(),
                            ));
                            assert(false);
                        }
                    }
                    return Err(e);
                },
            };
            let vals = match svb::decode_block(bytes.as_slice()) {
                Ok(v) => v,
                Err(e) => {
                    proof {
                        let ech = old(self).echts@;
                        let p = paths::entry_path_spec(
                            chromosome@,
                            w,
                            ech[i as int].name@ + ".bin"@,
                        );
                        assert(m.contains_key(p));
                        assert(!(svb::block_spec(m[p]) is Some));
                        assert forall|f: int|
                            !Self::missing_at_field(m, names, chromosome@, w, ech, f) by {
                            if 0 <= f < ech.len() {
                                if f < i {
                                    assert(Self::field_block_ok(
                                        m,
                                        chromosome@,
                                        w,
                                        ech[f].name@,
                                        new_values@[f]@,
                                    ));
                                } else if f > i {
                                    if Self::fields_fine_before(m, chromosome@, w, ech, f) {
                                        assert(Self::field_fine(
                                            m,
                                            chromosome@,
                                            w,
                                            ech[i as int].name@,
                                        ));
                                        assert(false);
                                    }
                                }
                            }
                        }
                        if Self::fields_fine_before(m, chromosome@, w, ech, ech.len() as int) {
                            assert(Self::field_fine(m, chromosome@, w, ech[i as int].name@));
                            assert(false);
                        }
                        if Self::window_ok(m, chromosome@, w, old(self).echts@) {
                            assert(Self::field_ready(
                                m,
                                chromosome@,
                                w,
                                old(self).echts@[i as int].name@,
                                Self::key_block_of(m, chromosome@, w).unwrap().len(),
                            ));
                            assert(false);
                        }
                    }
                    return Err(e);
                },
            };
            proof {
                let p = paths::entry_path_spec(
                    chromosome@,
                    w,
                    self.echts@[i as int].name@ + ".bin"@,
                );
                assert(m.contains_key(p));
                assert(bytes@ == m[p]);
                assert(svb::block_spec(m[p]) is Some);
                assert(Self::field_block_ok(
                    m,
                    chromosome@,
                    w,
                    self.echts@[i as int].name@,
                    vals@,
                ));
            }
            let ghost pre = new_values@;
            let ghost gvec = vals;
            new_values.push(vals);
            proof {
                assert forall|f: int|
                    0 <= f < i + 1 implies Self::field_block_ok(
                        m,
                        chromosome@,
                        w,
                        (#[trigger] self.echts@[f]).name@,
                        new_values@[f]@,
                    ) by {
                    if f < i {
                        assert(new_values@[f] == pre[f]);
                    } else {
                        assert(new_values@[f] == gvec);
                    }
                }
            }
            i = i + 1;
        }
        proof {
            let ech = old(self).echts@;
            assert forall|g: int|
                0 <= g < ech.len() && g < ech.len() implies Self::field_fine(
                m,
                chromosome@,
                w,
                (#[trigger] ech[g]).name@,
            ) by {
                assert(Self::field_block_ok(m, chromosome@, w, ech[g].name@, new_values@[g]@));
            }
            assert(Self::fields_fine_before(m, chromosome@, w, ech, ech.len() as int));
        }
        let kpath = paths::entry_path(chromosome.as_str(), w, "var32.bin");
        let kbytes = match archive::read_entry(&mut self.zip, kpath.as_str()) {
            Ok(b) => b,
            Err(e) => {
                proof {
                    let ech = old(self).echts@;
                    assert(!m.contains_key(paths::entry_path_spec(chromosome@, w, "var32.bin"@)));
                    Self::lemma_no_field_missing(m, names, chromosome@, w, ech);
                    if e == EchtError::EntryNotFound {
                        assert(!names.contains(
                            paths::entry_path_spec(chromosome@, w, "var32.bin"@),
                        ));
                        assert(Self::missing_at_keys(m, names, chromosome@, w, ech));
                    } else {
                        assert(names.contains(
                            paths::entry_path_spec(chromosome@, w, "var32.bin"@),
                        ));
                    }
                }
                return Err(e);
            },
        };
        let deltas = match svb::decode_block(kbytes.as_slice()) {
            Ok(v) => v,
            Err(e) => {
                proof {
                    let ech = old(self).echts@;
                    assert(m.contains_key(paths::entry_path_spec(chromosome@, w, "var32.bin"@)));
                    assert(kbytes@ == m[paths::entry_path_spec(chromosome@, w, "var32.bin"@)]);
                    assert(!(Self::key_block_of(m, chromosome@, w) is Some));
                    Self::lemma_no_field_missing(m, names, chromosome@, w, ech);
                }
                return Err(e);
            },
        };
        proof {
            assert(kbytes@ == m[paths::entry_path_spec(chromosome@, w, "var32.bin"@)]);
            assert(Self::key_block_of(m, chromosome@, w) == Some(deltas@));
        }
        let n = deltas.len();
        let mut f: usize = 0;
        while f < new_values.len()
            invariant
                old(self).wf(),
                !old(self).window_matches(chromosome@, position),
                w == position / WINDOW_SIZE,
                self.echts == old(self).echts,
                self.chrom == old(self).chrom,
                self.start == old(self).start,
                self.var32s == old(self).var32s,
                self.longs == old(self).longs,
                self.values == old(self).values,
                entries(self.zip) == m,
                m == entries(old(self).zip),
                archive::zip_names(self.zip) == names,
                names == archive::zip_names(old(self).zip),
                Self::fields_fine_before(
                    m,
                    chromosome@,
                    w,
                    old(self).echts@,
                    old(self).echts@.len() as int,
                ),
                m.contains_key(paths::entry_path_spec(chromosome@, w, "var32.bin"@)),
                new_values@.len() == self.echts@.len(),
                forall|k: int|
                    0 <= k < new_values@.len() ==> Self::field_block_ok(
                        m,
                        chromosome@,
                        w,
                        (#[trigger] self.echts@[k]).name@,
                        new_values@[k]@,
                    ),
                Self::key_block_of(m, chromosome@, w) == Some(deltas@),
                n == deltas@.len(),
                f <= new_values@.len(),
                forall|k: int| 0 <= k < f ==> (#[trigger] new_values@[k])@.len() == n,
            decreases new_values@.len() - f,
        {
            if new_values[f].len() != n {
                proof {
                    let ech = old(self).echts@;
                    Self::lemma_no_field_missing(m, names, chromosome@, w, ech);
                    if Self::missing_at_longs(m, names, chromosome@, w, ech) {
                        assert(Self::field_ready(
                            m,
                            chromosome@,
                            w,
                            ech[f as int].name@,
                            Self::key_block_of(m, chromosome@, w).unwrap().len(),
                        ));
                        assert(Self::field_block_ok(
                            m,
                            chromosome@,
                            w,
                            ech[f as int].name@,
                            new_values@[f as int]@,
                        ));
                        assert(false);
                    }
                    if Self::window_ok(m, chromosome@, w, old(self).echts@) {
                        assert(Self::field_ready(
                            m,
                            chromosome@,
                            w,
                            old(self).echts@[f as int].name@,
                            Self::key_block_of(m, chromosome@, w).unwrap().len(),
                        ));
                        assert(Self::field_block_ok(
                            m,
                            chromosome@,
                            w,
                            old(self).echts@[f as int].name@,
                            new_values@[f as int]@,
                        ));
                        assert(false);
                    }
                }
                return Err(EchtError::CorruptBlock);
            }
            f = f + 1;
        }
        proof {
            let ech = old(self).echts@;
            assert forall|f2: int|
                0 <= f2 < ech.len() implies Self::field_ready(
                m,
                chromosome@,
                w,
                (#[trigger] ech[f2]).name@,
                Self::key_block_of(m, chromosome@, w).unwrap().len(),
            ) by {
                assert(Self::field_block_ok(m, chromosome@, w, ech[f2].name@, new_values@[f2]@));
                assert(new_values@[f2]@.len() == n);
            }
        }
        let keyvec = match keys::cumsum(&deltas) {
            Ok(k) => k,
            Err(e) => {
                proof {
                    let ech = old(self).echts@;
                    Self::lemma_no_field_missing(m, names, chromosome@, w, ech);
                    assert(!keys::cumsum_ok(deltas@));
                }
                return Err(e);
            },
        };
        let lpath = paths::entry_path(chromosome.as_str(), w, "too-long-for-var32.txt");
        let lbytes = match archive::read_entry(&mut self.zip, lpath.as_str()) {
            Ok(b) => b,
            Err(e) => {
                proof {
                    let ech = old(self).echts@;
                    assert(!m.contains_key(paths::entry_path_spec(
                        chromosome@,
                        w,
                        "too-long-for-var32.txt"@,
                    )));
                    Self::lemma_no_field_missing(m, names, chromosome@, w, ech);
                    if e == EchtError::EntryNotFound {
                        assert(!names.contains(
                            paths::entry_path_spec(chromosome@, w, "too-long-for-var32.txt"@),
                        ));
                        assert(Self::missing_at_longs(m, names, chromosome@, w, ech));
                    } else {
                        assert(names.contains(
                            paths::entry_path_spec(chromosome@, w, "too-long-for-var32.txt"@),
                        ));
                    }
                }
                return Err(e);
            },
        };
        let longs = match fields::parse_longs(lbytes.as_slice()) {
            Ok(l) => l,
            Err(e) => {
                proof {
                    let ech = old(self).echts@;
                    assert(lbytes@ == m[paths::entry_path_spec(
                        chromosome@,
                        w,
                        "too-long-for-var32.txt"@,
                    )]);
                    assert(m.contains_key(paths::entry_path_spec(
                        chromosome@,
                        w,
                        "too-long-for-var32.txt"@,
                    )));
                    Self::lemma_no_field_missing(m, names, chromosome@, w, ech);
                }
                return Err(e);
            },
        };
        proof {
            assert(lbytes@ == m[paths::entry_path_spec(
                chromosome@,
                w,
                "too-long-for-var32.txt"@,
            )]);
            assert(m.contains_key(paths::entry_path_spec(
                chromosome@,
                w,
                "too-long-for-var32.txt"@,
            )));
            Self::lemma_no_field_missing(m, names, chromosome@, w, old(self).echts@);
            assert forall|k: int|
                0 <= k < old(self).echts@.len() implies Self::field_ready(
                m,
                chromosome@,
                w,
                (#[trigger] old(self).echts@[k]).name@,
                Self::key_block_of(m, chromosome@, w).unwrap().len(),
            ) by {
                assert(Self::field_block_ok(
                    m,
                    chromosome@,
                    w,
                    old(self).echts@[k].name@,
                    new_values@[k]@,
                ));
                assert(new_values@[k]@.len() == n);
            }
            assert(Self::window_ok(m, chromosome@, w, old(self).echts@));
        }
        let ghost nv = new_values@;
        let ghost gl = longs@;
        self.values = new_values;
        self.var32s = keyvec;
        self.longs = longs;
        self.chrom = chromosome;
        self.start = crate::window_start(position);
        proof {
            assert forall|f2: int|
                0 <= f2 < self.echts@.len() implies Self::field_block_ok(
                m,
                self.chrom@,
                w,
                (#[trigger] self.echts@[f2]).name@,
                self.values@[f2]@,
            ) by {
                assert(self.values@[f2] == nv[f2]);
            }
        }
        Ok(())
    }

    /// Answer one variant lookup: ensure the variant's window is
    /// loaded, encode its key, and fill `values` with one result per
    /// field, in registry order. This succeeds exactly when the window
    /// is already loaded or its entries load cleanly; absence from the
    /// window is not an error and is answered with every field's
    /// missing value. The chromosome must be valid UTF-8; anything else
    /// is refused as a caller error.
    pub fn values(
        &mut self,
        chromosome: &[u8],
        position: u32,
        reference: &[u8],
        alternate: &[u8],
        values: &mut Vec<i32>,
    ) -> (r: Result<(), EchtError>)
        requires
            old(self).wf(),
        ensures
            final(self).wf(),
            final(self).echts == old(self).echts,
            entries(final(self).zip) == entries(old(self).zip),
            (r matches Err(e) && e == EchtError::BadChromosome) <==> !vstd::utf8::valid_utf8(
                chromosome@,
            ),
            r is Err ==> final(values)@ == old(values)@ && final(self).chrom == old(self).chrom
                && final(self).start == old(self).start && final(self).var32s == old(
                self,
            ).var32s && final(self).longs == old(self).longs && final(self).values == old(
                self,
            ).values,
            vstd::utf8::valid_utf8(chromosome@) && old(self).window_matches(
                vstd::utf8::decode_utf8(chromosome@),
                position,
            ) ==> r is Ok && *final(self) == *old(self),
            vstd::utf8::valid_utf8(chromosome@) && !old(self).window_matches(
                vstd::utf8::decode_utf8(chromosome@),
                position,
            ) ==> ((r is Ok) <==> Self::window_ok(
                entries(old(self).zip),
                vstd::utf8::decode_utf8(chromosome@),
                position / WINDOW_SIZE,
                old(self).echts@,
            )),
            vstd::utf8::valid_utf8(chromosome@) && !old(self).window_matches(
                vstd::utf8::decode_utf8(chromosome@),
                position,
            ) && Self::window_entries_readable(
                entries(old(self).zip),
                vstd::utf8::decode_utf8(chromosome@),
                position / WINDOW_SIZE,
                old(self).echts@,
            ) ==> (r matches Err(e) ==> e == EchtError::CorruptBlock),
            vstd::utf8::valid_utf8(chromosome@) && !old(self).window_matches(
                vstd::utf8::decode_utf8(chromosome@),
                position,
            ) ==> ((r matches Err(e) && e == EchtError::EntryNotFound)
                <==> Self::first_failure_is_missing(
                entries(old(self).zip),
                archive::zip_names(old(self).zip),
                vstd::utf8::decode_utf8(chromosome@),
                position / WINDOW_SIZE,
                old(self).echts@,
            )),
            vstd::utf8::valid_utf8(chromosome@) ==> (r matches Err(e) ==> e
                == EchtError::EntryNotFound || e == EchtError::CorruptBlock),
            r is Ok ==> final(self).window_matches(vstd::utf8::decode_utf8(chromosome@), position),
            r is Ok ==> final(values)@ == Self::lookup_result_spec(
                *final(self),
                var32::encode_spec(position, reference@, alternate@),
            ),
    {
        let cs: &str = match utf8_str(chromosome) {
            Some(s) => s,
            None => {
                return Err(EchtError::BadChromosome);
            },
        };
        let chrom_string: String = cs.to_owned();
        match self.set_position(chrom_string, position) {
            Ok(_) => {},
            Err(e) => {
                return Err(e);
            },
        };
        let key: u32 = var32::encode(position, reference, alternate);
        values.clear();
        let ghost snap = *self;
        let found = keys::find_key(&self.var32s, key);
        proof {
            keys::lemma_find_spec_characterizes(snap.var32s@, key);
        }
        match found {
            Some(idx) => {
                let mut f: usize = 0;
                while f < self.echts.len()
                    invariant
                        *self == snap,
                        snap.wf(),
                        keys::find_spec(snap.var32s@, key) == Some(idx as int),
                        idx < snap.var32s@.len(),
                        f <= self.echts@.len(),
                        values@.len() == f,
                        forall|k: int|
                            0 <= k < f ==> values@[k] == Self::lookup_result_spec(snap, key)[k],
                    decreases self.echts@.len() - f,
                {
                    let vi = self.echts[f].values_i;
                    let raw: u32 = self.values[vi][idx];
                    let out_v: i32 = if raw == 0xFFFFFFFF {
                        self.echts[f].missing
                    } else {
                        #[verifier::truncate] (raw as i32)
                    };
                    values.push(out_v);
                    f = f + 1;
                }
            },
            None => {
                let mut f: usize = 0;
                while f < self.echts.len()
                    invariant
                        *self == snap,
                        snap.wf(),
                        keys::find_spec(snap.var32s@, key) is None,
                        f <= self.echts@.len(),
                        values@.len() == f,
                        forall|k: int|
                            0 <= k < f ==> values@[k] == Self::lookup_result_spec(snap, key)[k],
                    decreases self.echts@.len() - f,
                {
                    values.push(self.echts[f].missing);
                    f = f + 1;
                }
            },
        }
        proof {
            assert(values@ =~= Self::lookup_result_spec(*self, key));
        }
        Ok(())
    }
}

/// The missing-value law: when a variant's encoded key is absent from
/// the loaded window's keys, every field of the lookup's answer is that
/// field's configured missing value.
pub proof fn lemma_missing_value(s: EchtVars, key: u32)
    requires
        s.wf(),
        !s.var32s@.contains(key),
    ensures
        EchtVars::lookup_result_spec(s, key) == Seq::new(
            s.echts@.len(),
            |f: int| s.echts@[f].missing,
        ),
{
    assert forall|j: int| 0 <= j < s.var32s@.len() implies s.var32s@[j] != key by {
        if s.var32s@[j] == key {
            assert(s.var32s@.contains(key));
        }
    }
    keys::lemma_find_spec_absent(s.var32s@, key);
    assert(EchtVars::lookup_result_spec(s, key) =~= Seq::new(
        s.echts@.len(),
        |f: int| s.echts@[f].missing,
    ));
}

} // verus!
