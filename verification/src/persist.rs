use vstd::prelude::*;
use yaml_rust::Yaml;
use yaml_rust::YamlEmitter;
use crate::book::BookV;
use crate::book_sys::{BookSystem, BookSystemV};
use crate::error::ErrorKind;
use crate::reader::{Reader, ReaderBase, ReaderBaseV, ReaderV};
use crate::system::linked;
use crate::the_book::TheBookV;
use crate::text::{compose_identity, identity_text};

verus! {

/// Spec-level image of one serialized reader record.
#[verifier::ext_equal]
pub struct ReaderRecordV {
    pub num: int,
    pub name: Seq<char>,
    pub family: Seq<char>,
    pub father: Seq<char>,
    pub age: u8,
    pub reading: Seq<char>,
}

/// One reader as written to and read from the persisted registry:
/// sequence number, the personal fields, and a "currently reading"
/// field holding either the marker for "none" or the composed
/// "title author pages" identity string.
pub struct ReaderRecord {
    pub num: usize,
    pub name: String,
    pub family: String,
    pub father: String,
    pub age: u8,
    pub reading: String,
}

impl View for ReaderRecord {
    type V = ReaderRecordV;

    open spec fn view(&self) -> ReaderRecordV {
        ReaderRecordV {
            num: self.num as int,
            name: self.name@,
            family: self.family@,
            father: self.father@,
            age: self.age,
            reading: self.reading@,
        }
    }
}

/// The marker written in the "currently reading" field of a reader
/// who holds no copy.
pub open spec fn none_marker() -> Seq<char> {
    seq!['N', 'o', 'n', 'e']
}

/// The text that one serialized record yields; it depends on the
/// record's fields alone.
pub uninterp spec fn record_text(r: ReaderRecordV) -> Seq<char>;

/// Relies on yaml_rust's YamlEmitter: one yaml document, written as
/// "---" and a map of the six named fields, deterministic in the
/// fields alone.
#[verifier::external_body]
fn emit_record(
    num: usize,
    name: &String,
    family: &String,
    father: &String,
    age: u8,
    reading: &String,
) -> (r: String)
    ensures
        r@ == record_text(
            ReaderRecordV {
                num: num as int,
                name: name@,
                family: family@,
                father: father@,
                age: age,
                reading: reading@,
            },
        ),
{
    let mut h = yaml_rust::yaml::Hash::new();
    h.insert(Yaml::String("№".into()), Yaml::Integer(num as i64));
    h.insert(Yaml::String("Name".into()), Yaml::String(name.clone()));
    h.insert(Yaml::String("Family".into()), Yaml::String(family.clone()));
    h.insert(Yaml::String("Father".into()), Yaml::String(father.clone()));
    h.insert(Yaml::String("Age".into()), Yaml::Integer(age as i64));
    h.insert(Yaml::String("Reading".into()), Yaml::String(reading.clone()));
    let mut out = String::new();
    let _ = YamlEmitter::new(&mut out).dump(&Yaml::Hash(h));
    out
}

/// The records that a persisted text parses into, or nothing when the
/// text is malformed; the result depends on the text alone.
pub uninterp spec fn parsed_records(s: Seq<char>) -> Option<Seq<ReaderRecordV>>;

/// Relies on yaml_rust's YamlLoader::load_from_str (a text parses
/// into one yaml value per document; a malformed text gives an error)
/// and on Yaml's field accessors (indexing by key, `as_str`,
/// `as_i64`; a missing or differently typed field gives nothing,
/// never a panic): the text parses into one record per document, each
/// holding the six named fields.
#[verifier::external_body]
fn parse_reader_file(s: &str) -> (r: Option<Vec<ReaderRecord>>)
    ensures
        r is None ==> parsed_records(s@) is None,
        r matches Some(v) ==> parsed_records(s@) == Some(records_view(v@)),
{
    let docs = yaml_rust::YamlLoader::load_from_str(s).ok()?;
    let mut out = Vec::new();
    for d in docs.iter() {
        out.push(ReaderRecord {
            num: usize::try_from(d["№"].as_i64()?).ok()?,
            name: d["Name"].as_str()?.to_string(),
            family: d["Family"].as_str()?.to_string(),
            father: d["Father"].as_str()?.to_string(),
            age: u8::try_from(d["Age"].as_i64()?).ok()?,
            reading: d["Reading"].as_str()?.to_string(),
        });
    }
    Some(out)
}

/// The record that the registry writes for reader `rv` under sequence
/// number `num`: the personal fields as they stand, and the reading
/// field resolved through the catalog to the held copy's composed
/// identity string, or the "none" marker.
pub open spec fn spec_record_of(rv: ReaderV, bsv: BookSystemV, num: int) -> ReaderRecordV {
    ReaderRecordV {
        num: num,
        name: rv.name,
        family: rv.family,
        father: rv.father,
        age: rv.age,
        reading: match rv.reading {
            Option::None => none_marker(),
            Option::Some(cid) => {
                let (i, k) = bsv.loc_of(cid);
                identity_text(bsv.books[i].title, bsv.books[i].author, bsv.books[i].pages)
            },
        },
    }
}

/// The persisted text of the first `n` readers: one record document
/// per reader, each followed by a line break.
pub open spec fn file_text_upto(rbv: ReaderBaseV, bsv: BookSystemV, n: int) -> Seq<char>
    decreases n,
{
    if n <= 0 {
        Seq::<char>::empty()
    } else {
        file_text_upto(rbv, bsv, n - 1) + record_text(spec_record_of(rbv.readers[n - 1], bsv, n))
            + seq!['\n']
    }
}

/// The persisted text of the whole registry.
pub open spec fn reader_file_text(rbv: ReaderBaseV, bsv: BookSystemV) -> Seq<char> {
    file_text_upto(rbv, bsv, rbv.readers.len() as int)
}

/// Whether `i` is the first aggregate whose composed identity string
/// is `txt`.
pub open spec fn is_first_title_match(bsv: BookSystemV, txt: Seq<char>, i: int) -> bool {
    &&& 0 <= i < bsv.books.len()
    &&& identity_text(bsv.books[i].title, bsv.books[i].author, bsv.books[i].pages) == txt
    &&& forall|j: int|
        0 <= j < i ==> identity_text(
            (#[trigger] bsv.books[j]).title,
            bsv.books[j].author,
            bsv.books[j].pages,
        ) != txt
}

/// Whether some aggregate's composed identity string is `txt`.
pub open spec fn has_title_match(bsv: BookSystemV, txt: Seq<char>) -> bool {
    exists|i: int|
        0 <= i < bsv.books.len() && identity_text(
            (#[trigger] bsv.books[i]).title,
            bsv.books[i].author,
            bsv.books[i].pages,
        ) == txt
}

/// The first aggregate whose composed identity string is `txt`.
pub open spec fn first_title_match(bsv: BookSystemV, txt: Seq<char>) -> int {
    choose|i: int| is_first_title_match(bsv, txt, i)
}

/// Whether the aggregate has an unused copy.
pub open spec fn has_unused(tb: TheBookV) -> bool {
    exists|k: int| 0 <= k < tb.books.len() && !(#[trigger] tb.books[k]).is_using
}

/// The first unused copy of the aggregate.
pub open spec fn first_unused(tb: TheBookV) -> int {
    choose|k: int|
        0 <= k < tb.books.len() && !(#[trigger] tb.books[k]).is_using && (forall|j: int|
            0 <= j < k ==> tb.books[j].is_using)
}

/// What loading one record does to the state: a reader with this
/// identity must not exist yet; a record reading the "none" marker
/// adds a reader holding nothing; any other reading field must
/// resolve, by composed identity string, to a catalog title with an
/// unused copy, whose first unused copy the new reader then holds,
/// exactly as if they had just borrowed it. An exhausted stable-id
/// counter reports `IndexOutOfRange`: the registry cannot take
/// another reader.
pub open spec fn load_step(rbv: ReaderBaseV, bsv: BookSystemV, rec: ReaderRecordV) -> Result<
    (ReaderBaseV, BookSystemV),
    ErrorKind,
> {
    if rbv.next_id == u64::MAX {
        Err(ErrorKind::IndexOutOfRange)
    } else if rbv.has_person(rec.name, rec.family, rec.father, rec.age) {
        Err(ErrorKind::AlreadyExists)
    } else if rec.reading == none_marker() {
        Ok(
            (
                ReaderBaseV {
                    readers: rbv.readers.push(
                        ReaderV {
                            name: rec.name,
                            family: rec.family,
                            father: rec.father,
                            age: rec.age,
                            id: rbv.next_id,
                            books: Seq::<u64>::empty(),
                            reading: Option::None,
                        },
                    ),
                    next_id: (rbv.next_id + 1) as u64,
                },
                bsv,
            ),
        )
    } else if !has_title_match(bsv, rec.reading) {
        Err(ErrorKind::NotFound)
    } else {
        let i = first_title_match(bsv, rec.reading);
        if !has_unused(bsv.books[i]) {
            Err(ErrorKind::AlreadyInUse)
        } else {
            let k = first_unused(bsv.books[i]);
            let cid = bsv.copy_at(i, k).id;
            Ok(
                (
                    ReaderBaseV {
                        readers: rbv.readers.push(
                            ReaderV {
                                name: rec.name,
                                family: rec.family,
                                father: rec.father,
                                age: rec.age,
                                id: rbv.next_id,
                                books: seq![cid],
                                reading: Option::Some(cid),
                            },
                        ),
                        next_id: (rbv.next_id + 1) as u64,
                    },
                    bsv.with_copy(
                        i,
                        k,
                        BookV {
                            is_using: true,
                            readers: bsv.copy_at(i, k).readers.push(
                                crate::book::BorrowEntry { reader: rbv.next_id, returned: false },
                            ),
                            ..bsv.copy_at(i, k)
                        },
                    ),
                ),
            )
        }
    }
}

/// What loading a whole record sequence does: the records are applied
/// in order; the first failing record's error is the result.
pub open spec fn load_all(rbv: ReaderBaseV, bsv: BookSystemV, recs: Seq<ReaderRecordV>) -> Result<
    (ReaderBaseV, BookSystemV),
    ErrorKind,
>
    decreases recs.len(),
{
    if recs.len() == 0 {
        Ok((rbv, bsv))
    } else {
        match load_step(rbv, bsv, recs.first()) {
            Err(e) => Err(e),
            Ok(st) => load_all(st.0, st.1, recs.drop_first()),
        }
    }
}

/// The spec-level images of a sequence of records.
pub open spec fn records_view(v: Seq<ReaderRecord>) -> Seq<ReaderRecordV> {
    v.map_values(|r: ReaderRecord| r@)
}


/// Applying one more record to a fold that already succeeded applies
/// one step; a fold that already failed stays failed.
proof fn lemma_load_all_push(
    rbv: ReaderBaseV,
    bsv: BookSystemV,
    recs: Seq<ReaderRecordV>,
    x: ReaderRecordV,
)
    ensures
        load_all(rbv, bsv, recs.push(x)) == (match load_all(rbv, bsv, recs) {
            Err(e) => Err::<(ReaderBaseV, BookSystemV), ErrorKind>(e),
            Ok(st) => load_step(st.0, st.1, x),
        }),
    decreases recs.len(),
{
    if recs.len() == 0 {
        assert(recs.push(x).first() == x);
        assert(recs.push(x).drop_first() =~= Seq::<ReaderRecordV>::empty());
        match load_step(rbv, bsv, x) {
            Err(e) => {},
            Ok(st) => {
                assert(load_all(st.0, st.1, Seq::<ReaderRecordV>::empty()) == Ok::<
                    (ReaderBaseV, BookSystemV),
                    ErrorKind,
                >((st.0, st.1)));
            },
        }
    } else {
        assert(recs.push(x).first() == recs.first());
        assert(recs.push(x).drop_first() =~= recs.drop_first().push(x));
        match load_step(rbv, bsv, recs.first()) {
            Err(e) => {},
            Ok(st) => {
                lemma_load_all_push(st.0, st.1, recs.drop_first(), x);
            },
        }
    }
}

/// Once a prefix of the records fails, the whole sequence fails the
/// same way.
proof fn lemma_load_all_err_to_end(
    rbv: ReaderBaseV,
    bsv: BookSystemV,
    recs: Seq<ReaderRecordV>,
    i: int,
)
    requires
        0 <= i <= recs.len(),
        load_all(rbv, bsv, recs.take(i)) is Err,
    ensures
        load_all(rbv, bsv, recs) == load_all(rbv, bsv, recs.take(i)),
    decreases recs.len() - i,
{
    if i < recs.len() {
        assert(recs.take(i + 1) =~= recs.take(i).push(recs[i]));
        lemma_load_all_push(rbv, bsv, recs.take(i), recs[i]);
        lemma_load_all_err_to_end(rbv, bsv, recs, i + 1);
    } else {
        assert(recs.take(i) =~= recs);
    }
}

/// The record that the registry writes for the reader `p` under
/// sequence number `num`.
pub fn reader_record(p: &Reader, bs: &BookSystem, num: usize) -> (r: ReaderRecord)
    requires
        bs@.wf(),
        crate::system::reading_linked(p@, bs@),
    ensures
        r@ == spec_record_of(p@, bs@, num as int),
{
    let reading: String = match p.reading {
        None => {
            let m = String::from_str("None");
            proof {
                reveal_strlit("None");
                assert(m@ =~= none_marker());
            }
            m
        },
        Some(cid) => {
            proof {
                let (i0, k0) = choose|i0: int, k0: int|
                    bs@.valid_copy(i0, k0) && (#[trigger] bs@.copy_at(i0, k0)).id == cid
                        && bs@.copy_at(i0, k0).is_using && bs@.copy_at(i0, k0).holder() == p@.id;
                assert(bs@.has_copy_id(cid));
            }
            let loc = match bs.find_copy_by_id(cid) {
                None => {
                    proof {
                        assert(false);
                    }
                    (0, 0)
                },
                Some(l) => l,
            };
            let (i, k) = loc;
            proof {
                let (i1, k1) = bs@.loc_of(cid);
                assert(bs@.valid_copy(i1, k1) && bs@.copy_at(i1, k1).id == cid) by {
                    assert(bs@.has_copy_id(cid));
                }
                assert(i1 == i as int && k1 == k as int);
                assert(bs@.books[i as int] == bs.books@[i as int]@);
            }
            compose_identity(&bs.books[i].title, &bs.books[i].author, bs.books[i].pages)
        },
    };
    ReaderRecord {
        num,
        name: p.name.clone(),
        family: p.family.clone(),
        father: p.father.clone(),
        age: p.age,
        reading,
    }
}

/// The first aggregate whose composed identity string reads `txt`.
fn find_title_by_text(bs: &BookSystem, txt: &String) -> (r: Option<usize>)
    ensures
        r matches Some(i) ==> is_first_title_match(bs@, txt@, i as int),
        r is None ==> !has_title_match(bs@, txt@),
{
    let n = bs.books.len();
    let mut i: usize = 0;
    while i < n
        invariant
            i <= n,
            n == bs@.books.len(),
            forall|j: int|
                0 <= j < i ==> identity_text(
                    (#[trigger] bs@.books[j]).title,
                    bs@.books[j].author,
                    bs@.books[j].pages,
                ) != txt@,
        decreases n - i,
    {
        proof {
            assert(bs@.books[i as int] == bs.books@[i as int]@);
        }
        let composed = compose_identity(&bs.books[i].title, &bs.books[i].author, bs.books[i].pages);
        if composed == *txt {
            return Some(i);
        }
        i += 1;
    }
    proof {
        if has_title_match(bs@, txt@) {
            let j = choose|j: int|
                0 <= j < bs@.books.len() && identity_text(
                    (#[trigger] bs@.books[j]).title,
                    bs@.books[j].author,
                    bs@.books[j].pages,
                ) == txt@;
            assert(identity_text(bs@.books[j].title, bs@.books[j].author, bs@.books[j].pages)
                != txt@);
        }
    }
    None
}

impl ReaderBase {
    /// The persisted text of this registry: one record document per
    /// reader, in registry order, each followed by a line break, with
    /// the "currently reading" field resolved through the catalog.
    pub fn save_to_string(&self, bs: &BookSystem) -> (r: String)
        requires
            bs@.wf(),
            linked(self@, bs@),
        ensures
            r@ == reader_file_text(self@, bs@),
    {
        let mut out = String::new();
        let n = self.readers.len();
        let mut i: usize = 0;
        proof {
            assert(out@ =~= file_text_upto(self@, bs@, 0));
        }
        while i < n
            invariant
                i <= n,
                n == self@.readers.len(),
                bs@.wf(),
                linked(self@, bs@),
                out@ == file_text_upto(self@, bs@, i as int),
            decreases n - i,
        {
            proof {
                assert(self@.readers[i as int] == self.readers@[i as int]@);
            }
            let rec = reader_record(&self.readers[i], bs, i + 1);
            let t = emit_record(rec.num, &rec.name, &rec.family, &rec.father, rec.age, &rec.reading);
            proof {
                assert(t@ == record_text(rec@));
            }
            out.append(t.as_str());
            out.append("\n");
            proof {
                reveal_strlit("\n");
                assert("\n"@ =~= seq!['\n']);
                assert(out@ =~= file_text_upto(self@, bs@, i as int + 1));
            }
            i += 1;
        }
        out
    }

    /// Rebuild readers from parsed records, appending them to this
    /// registry with the catalog loaded first: each record's
    /// "currently reading" field is resolved, by composed identity
    /// string, to an actual copy already present in the catalog, which
    /// the new reader then holds exactly as if they had just borrowed
    /// it. The records are applied atomically: on the first failing
    /// record its error is reported and nothing changes.
    pub fn load_records(&mut self, records: &Vec<ReaderRecord>, bs: &mut BookSystem) -> (r: Result<
        (),
        ErrorKind,
    >)
        requires
            old(self)@.wf(),
            old(bs)@.wf(),
            linked(old(self)@, old(bs)@),
        ensures
            final(self)@.wf(),
            final(bs)@.wf(),
            linked(final(self)@, final(bs)@),
            match load_all(old(self)@, old(bs)@, records_view(records@)) {
                Ok(st) => r == Ok::<(), ErrorKind>(()) && final(self)@ == st.0 && final(bs)@
                    == st.1,
                Err(e) => r == Err::<(), ErrorKind>(e) && final(self)@ == old(self)@ && final(bs)@
                    == old(bs)@,
            },
    {
        let mut rb2 = self.duplicate();
        let mut bs2 = bs.duplicate();
        let n = records.len();
        let mut i: usize = 0;
        proof {
            assert(records_view(records@).take(0) =~= Seq::<ReaderRecordV>::empty());
        }
        while i < n
            invariant
                i <= n,
                n == records@.len(),
                rb2@.wf(),
                bs2@.wf(),
                linked(rb2@, bs2@),
                self@ == old(self)@,
                bs@ == old(bs)@,
                old(self)@.wf(),
                old(bs)@.wf(),
                linked(old(self)@, old(bs)@),
                load_all(old(self)@, old(bs)@, records_view(records@).take(i as int)) == Ok::<
                    (ReaderBaseV, BookSystemV),
                    ErrorKind,
                >((rb2@, bs2@)),
            decreases n - i,
        {
            let ghost rbp = rb2@;
            let ghost bsp = bs2@;
            let ghost allrecs = records_view(records@);
            let rec = &records[i];
            proof {
                assert(rec@ == allrecs[i as int]);
                assert(allrecs.take(i as int + 1) =~= allrecs.take(i as int).push(
                    allrecs[i as int],
                ));
                lemma_load_all_push(old(self)@, old(bs)@, allrecs.take(i as int), allrecs[i as int]);
            }
            if rb2.next_id == u64::MAX {
                proof {
                    assert(load_step(rbp, bsp, rec@) == Err::<
                        (ReaderBaseV, BookSystemV),
                        ErrorKind,
                    >(ErrorKind::IndexOutOfRange));
                    lemma_load_all_err_to_end(old(self)@, old(bs)@, allrecs, i as int + 1);
                }
                return Err(ErrorKind::IndexOutOfRange);
            }
            let f = rb2.find_reader(&rec.name, &rec.family, &rec.father, rec.age);
            if f < rb2.readers.len() {
                proof {
                    assert(rbp.readers[f as int].same_person(
                        rec@.name,
                        rec@.family,
                        rec@.father,
                        rec@.age,
                    ));
                    assert(rbp.has_person(rec@.name, rec@.family, rec@.father, rec@.age));
                    lemma_load_all_err_to_end(old(self)@, old(bs)@, allrecs, i as int + 1);
                }
                return Err(ErrorKind::AlreadyExists);
            }
            let none_m = String::from_str("None");
            proof {
                reveal_strlit("None");
                assert(none_m@ =~= none_marker());
            }
            let nid = rb2.next_id;
            if rec.reading == none_m {
                let res = rb2.add_reader(
                    rec.name.clone(),
                    rec.family.clone(),
                    rec.father.clone(),
                    rec.age,
                );
                proof {
                    assert(res is Ok);
                    assert(load_step(rbp, bsp, rec@) == Ok::<
                        (ReaderBaseV, BookSystemV),
                        ErrorKind,
                    >((rb2@, bs2@))) by {
                        assert(rb2@ =~~= (ReaderBaseV {
                            readers: rbp.readers.push(
                                ReaderV {
                                    name: rec@.name,
                                    family: rec@.family,
                                    father: rec@.father,
                                    age: rec@.age,
                                    id: rbp.next_id,
                                    books: Seq::<u64>::empty(),
                                    reading: Option::None,
                                },
                            ),
                            next_id: (rbp.next_id + 1) as u64,
                        }));
                    }
                    assert(linked(rb2@, bs2@)) by {
                        let rb1 = rb2@;
                        assert forall|r0: int| 0 <= r0 < rb1.readers.len() implies
                            crate::system::reading_linked(#[trigger] rb1.readers[r0], bs2@) by {
                            if r0 < rbp.readers.len() {
                                assert(rb1.readers[r0] == rbp.readers[r0]);
                                assert(crate::system::reading_linked(rbp.readers[r0], bsp));
                            }
                        }
                        assert forall|a: int, b: int|
                            bs2@.valid_copy(a, b) && (#[trigger] bs2@.copy_at(a, b)).is_using
                                implies crate::system::copy_held(bs2@.copy_at(a, b), rb1) by {
                            let r0 = choose|r0: int|
                                0 <= r0 < rbp.readers.len() && (#[trigger] rbp.readers[r0]).id
                                    == bsp.copy_at(a, b).holder() && rbp.readers[r0].reading
                                    == Some(bsp.copy_at(a, b).id);
                            assert(rb1.readers[r0] == rbp.readers[r0]);
                        }
                    }
                }
            } else {
                let b_ind = match find_title_by_text(&bs2, &rec.reading) {
                    None => {
                        proof {
                            assert(rec@.reading != none_marker());
                            assert(load_step(rbp, bsp, rec@) == Err::<
                                (ReaderBaseV, BookSystemV),
                                ErrorKind,
                            >(ErrorKind::NotFound));
                            lemma_load_all_err_to_end(
                                old(self)@,
                                old(bs)@,
                                allrecs,
                                i as int + 1,
                            );
                        }
                        return Err(ErrorKind::NotFound);
                    },
                    Some(b) => b,
                };
                proof {
                    assert(is_first_title_match(bsp, rec@.reading, b_ind as int));
                    assert(has_title_match(bsp, rec@.reading)) by {
                        assert(identity_text(
                            bsp.books[b_ind as int].title,
                            bsp.books[b_ind as int].author,
                            bsp.books[b_ind as int].pages,
                        ) == rec@.reading);
                    }
                    assert(first_title_match(bsp, rec@.reading) == b_ind as int) by {
                        let i2 = first_title_match(bsp, rec@.reading);
                        assert(is_first_title_match(bsp, rec@.reading, i2)) by {
                            assert(is_first_title_match(bsp, rec@.reading, b_ind as int));
                        }
                        if i2 < b_ind as int {
                            assert(identity_text(
                                bsp.books[i2].title,
                                bsp.books[i2].author,
                                bsp.books[i2].pages,
                            ) != rec@.reading);
                        } else if i2 > b_ind as int {
                            assert(identity_text(
                                bsp.books[b_ind as int].title,
                                bsp.books[b_ind as int].author,
                                bsp.books[b_ind as int].pages,
                            ) != rec@.reading);
                        }
                    }
                    assert(bsp.books[b_ind as int] == bs2.books@[b_ind as int]@);
                }
                let k = match bs2.books[b_ind].get_unused() {
                    None => {
                        proof {
                            assert(rec@.reading != none_marker());
                            assert(!has_unused(bsp.books[b_ind as int])) by {
                                if has_unused(bsp.books[b_ind as int]) {
                                    let k0 = choose|k0: int|
                                        0 <= k0 < bsp.books[b_ind as int].books.len() && !(
                                        #[trigger] bsp.books[b_ind as int].books[k0]).is_using;
                                    assert(bsp.books[b_ind as int].books[k0].is_using);
                                }
                            }
                            assert(load_step(rbp, bsp, rec@) == Err::<
                                (ReaderBaseV, BookSystemV),
                                ErrorKind,
                            >(ErrorKind::AlreadyInUse));
                            lemma_load_all_err_to_end(
                                old(self)@,
                                old(bs)@,
                                allrecs,
                                i as int + 1,
                            );
                        }
                        return Err(ErrorKind::AlreadyInUse);
                    },
                    Some(k) => k,
                };
                proof {
                    assert(has_unused(bsp.books[b_ind as int])) by {
                        assert(!bsp.books[b_ind as int].books[k as int].is_using);
                    }
                    assert(first_unused(bsp.books[b_ind as int]) == k as int) by {
                        let tb = bsp.books[b_ind as int];
                        assert(0 <= (k as int) && (k as int) < tb.books.len());
                        assert(!tb.books[k as int].is_using);
                        assert(forall|j: int| 0 <= j < k as int ==> (#[trigger] tb.books[j]).is_using);
                        let k2 = first_unused(tb);
                        assert(0 <= k2 < tb.books.len());
                        assert(!tb.books[k2].is_using);
                        assert(forall|j: int| 0 <= j < k2 ==> (#[trigger] tb.books[j]).is_using);
                        if k2 < k as int {
                            assert(tb.books[k2].is_using);
                        } else if k2 > k as int {
                            assert(tb.books[k as int].is_using);
                        }
                    }
                }
                let cid = bs2.books[b_ind].books[k].id;
                let res0 = bs2.begin_borrow_copy(b_ind, k, nid);
                proof {
                    assert(res0 is Ok);
                }
                let res = rb2.add_reader(
                    rec.name.clone(),
                    rec.family.clone(),
                    rec.father.clone(),
                    rec.age,
                );
                proof {
                    assert(res is Ok);
                }
                proof {
                    assert(rb2@.readers.len() > 0);
                    assert(rb2.readers@.len() == rb2@.readers.len());
                }
                let ghost gpush = rb2@;
                let idx = rb2.readers.len() - 1;
                let mut tmp = Reader::new(String::new(), String::new(), String::new(), 0, 0);
                rb2.readers.set_and_swap(idx, &mut tmp);
                let ghost gtaken = tmp@;
                tmp.start_reading(cid);
                let ghost gupdated = tmp@;
                rb2.readers.set_and_swap(idx, &mut tmp);
                proof {
                    assert(rec@.reading != none_marker());
                    let newreader = ReaderV {
                        name: rec@.name,
                        family: rec@.family,
                        father: rec@.father,
                        age: rec@.age,
                        id: rbp.next_id,
                        books: seq![cid],
                        reading: Option::Some(cid),
                    };
                    assert(Seq::<u64>::empty().push(cid) =~= seq![cid]);
                    assert(idx as int == rbp.readers.len());
                    assert(gtaken == gpush.readers[idx as int]);
                    assert(gtaken == gpush.readers.last());
                    assert(gtaken.books == Seq::<u64>::empty());
                    assert(gupdated == (ReaderV {
                        books: gtaken.books.push(cid),
                        reading: Option::Some(cid),
                        ..gtaken
                    }));
                    assert(gupdated == newreader);
                    assert(rb2@.readers =~= gpush.readers.update(idx as int, gupdated));
                    assert(rb2@.readers =~= rbp.readers.push(newreader));
                    assert(load_step(rbp, bsp, rec@) == Ok::<
                        (ReaderBaseV, BookSystemV),
                        ErrorKind,
                    >((rb2@, bs2@))) by {
                        assert(rb2@ =~~= (ReaderBaseV {
                            readers: rbp.readers.push(newreader),
                            next_id: (rbp.next_id + 1) as u64,
                        }));
                    }
                    assert(rb2@.wf()) by {
                        let rb1 = rb2@;
                        assert forall|a: int, b: int|
                            #![trigger rb1.readers[a], rb1.readers[b]]
                            0 <= a < rb1.readers.len() && 0 <= b < rb1.readers.len() && a != b
                                implies !rb1.readers[a].same_person(
                            rb1.readers[b].name,
                            rb1.readers[b].family,
                            rb1.readers[b].father,
                            rb1.readers[b].age,
                        ) by {
                            if a < rbp.readers.len() && b < rbp.readers.len() {
                                assert(rb1.readers[a] == rbp.readers[a]);
                                assert(rb1.readers[b] == rbp.readers[b]);
                            } else if a < rbp.readers.len() {
                                if rb1.readers[a].same_person(
                                    rec@.name,
                                    rec@.family,
                                    rec@.father,
                                    rec@.age,
                                ) {
                                    assert(rbp.has_person(
                                        rec@.name,
                                        rec@.family,
                                        rec@.father,
                                        rec@.age,
                                    ));
                                }
                            } else {
                                if rb1.readers[b].same_person(rec@.name, rec@.family, rec@.father, rec@.age) {
                                    assert(rbp.has_person(rec@.name, rec@.family, rec@.father, rec@.age));
                                } else {
                                    assert(!rb1.readers[a].same_person(
                                        rb1.readers[b].name,
                                        rb1.readers[b].family,
                                        rb1.readers[b].father,
                                        rb1.readers[b].age,
                                    ));
                                }
                            }
                        }
                        assert forall|a: int| 0 <= a < rb1.readers.len() implies (
                        #[trigger] rb1.readers[a]).id < rb1.next_id by {
                            if a < rbp.readers.len() {
                                assert(rb1.readers[a] == rbp.readers[a]);
                            }
                        }
                        assert forall|a: int, b: int|
                            #![trigger rb1.readers[a].id, rb1.readers[b].id]
                            0 <= a < rb1.readers.len() && 0 <= b < rb1.readers.len() && a != b
                                implies rb1.readers[a].id != rb1.readers[b].id by {
                            if a < rbp.readers.len() {
                                assert(rb1.readers[a] == rbp.readers[a]);
                            }
                            if b < rbp.readers.len() {
                                assert(rb1.readers[b] == rbp.readers[b]);
                            }
                        }
                    }
                    assert(bs2@.wf()) by {
                        crate::book_sys::lemma_wf_after_copy_update(
                            bsp,
                            bs2@,
                            b_ind as int,
                            k as int,
                        );
                    }
                    assert(linked(rb2@, bs2@)) by {
                        let rb1 = rb2@;
                        let bs1 = bs2@;
                        assert forall|r0: int| 0 <= r0 < rb1.readers.len() implies
                            crate::system::reading_linked(#[trigger] rb1.readers[r0], bs1) by {
                            if r0 < rbp.readers.len() {
                                assert(rb1.readers[r0] == rbp.readers[r0]);
                                assert(crate::system::reading_linked(rbp.readers[r0], bsp));
                                if rbp.readers[r0].reading is Some {
                                    let c2 = rbp.readers[r0].reading.unwrap();
                                    let (i2, k2) = choose|i2: int, k2: int|
                                        bsp.valid_copy(i2, k2) && (#[trigger] bsp.copy_at(
                                            i2,
                                            k2,
                                        )).id == c2 && bsp.copy_at(i2, k2).is_using && bsp.copy_at(
                                            i2,
                                            k2,
                                        ).holder() == rbp.readers[r0].id;
                                    assert(i2 != b_ind as int || k2 != k as int);
                                    assert(bs1.copy_at(i2, k2) == bsp.copy_at(i2, k2));
                                    assert(bs1.valid_copy(i2, k2) && bs1.copy_at(i2, k2).id == c2
                                        && bs1.copy_at(i2, k2).is_using && bs1.copy_at(
                                        i2,
                                        k2,
                                    ).holder() == rb1.readers[r0].id);
                                }
                            } else {
                                assert(bs1.valid_copy(b_ind as int, k as int));
                                assert(bs1.copy_at(b_ind as int, k as int).id == cid);
                                assert(bs1.copy_at(b_ind as int, k as int).is_using);
                                assert(bs1.copy_at(b_ind as int, k as int).holder() == nid);
                            }
                        }
                        assert forall|a: int, b: int|
                            bs1.valid_copy(a, b) && (#[trigger] bs1.copy_at(a, b)).is_using
                                implies crate::system::copy_held(bs1.copy_at(a, b), rb1) by {
                            if a == b_ind as int && b == k as int {
                                let nr = rb1.readers.len() - 1;
                                assert(rb1.readers[nr].id == bs1.copy_at(a, b).holder());
                                assert(rb1.readers[nr].reading == Some(bs1.copy_at(a, b).id));
                            } else {
                                assert(bs1.copy_at(a, b) == bsp.copy_at(a, b));
                                let r0 = choose|r0: int|
                                    0 <= r0 < rbp.readers.len() && (#[trigger] rbp.readers[r0]).id
                                        == bsp.copy_at(a, b).holder() && rbp.readers[r0].reading
                                        == Some(bsp.copy_at(a, b).id);
                                assert(rb1.readers[r0] == rbp.readers[r0]);
                            }
                        }
                    }
                }
            }
            i += 1;
        }
        proof {
            assert(records_view(records@).take(n as int) =~= records_view(records@));
        }
        *self = rb2;
        *bs = bs2;
        Ok(())
    }

    /// Load persisted records from their textual form and rebuild the
    /// readers against the already-loaded catalog, as `load_records`
    /// does, atomically. A text that does not parse into well-formed
    /// records reports `ParseError`; any failure changes nothing.
    pub fn load(&mut self, s: &str, bs: &mut BookSystem) -> (r: Result<(), ErrorKind>)
        requires
            old(self)@.wf(),
            old(bs)@.wf(),
            linked(old(self)@, old(bs)@),
        ensures
            final(self)@.wf(),
            final(bs)@.wf(),
            linked(final(self)@, final(bs)@),
            parsed_records(s@) is None ==> r == Err::<(), ErrorKind>(ErrorKind::ParseError)
                && final(self)@ == old(self)@ && final(bs)@ == old(bs)@,
            parsed_records(s@) matches Some(recs) ==> match load_all(old(self)@, old(bs)@, recs) {
                Ok(st) => r == Ok::<(), ErrorKind>(()) && final(self)@ == st.0 && final(bs)@
                    == st.1,
                Err(e) => r == Err::<(), ErrorKind>(e) && final(self)@ == old(self)@ && final(bs)@
                    == old(bs)@,
            },
    {
        let records = match parse_reader_file(s) {
            None => {
                return Err(ErrorKind::ParseError);
            },
            Some(v) => v,
        };
        self.load_records(&records, bs)
    }
}

} // verus!
