//! The declared-identity loader's own rules: which files are overlays, the
//! order in which the overlays of all directories apply (by file name,
//! whatever directory they came from), the merge of each onto the base, and
//! the redaction of private fields. Reading the files and decoding the
//! merged tree into the identity schema belong to the caller.
use crate::text::{
    find_last, last_index_of, lemma_text_less_asymmetric, less_than, split_on, text_less, views,
};
use crate::text::lemma_split_on_nonempty;
use crate::tree::{
    copy_value, deep_merge, has_path, lemma_removed_path_absent, lemma_removed_path_keeps_absent,
    merged, remove_field_path, removed_path, Tree, YamlValue,
};
use vstd::prelude::*;
use vstd::seq_lib::to_multiset_insert;

verus! {

broadcast use vstd::seq_lib::group_seq_properties;

/// Why the identity could not be loaded.
#[derive(Clone, Debug, PartialEq, Eq)]
pub enum IdentityError {
    /// The base file could not be read; the text says why.
    Unreadable(String),
    /// The base file is not a well-formed document; the text says why.
    Unparsable(String),
    /// The merged tree does not decode into the identity schema.
    Invalid(String),
}

/// The login shell a declared user gets when none is named.
pub fn default_shell() -> (r: String)
    ensures
        r@ == "blzsh"@,
{
    String::from_str("blzsh")
}

/// The secrets provider when none is named.
pub fn default_secrets_provider() -> (r: String)
    ensures
        r@ == "sops"@,
{
    String::from_str("sops")
}

/// The users the package manager trusts when none are named: `root` alone.
pub fn default_trusted_users() -> (r: Vec<String>)
    ensures
        views(r@) == seq!["root"@],
{
    let mut v: Vec<String> = Vec::new();
    v.push(String::from_str("root"));
    assert(views(v@) =~= seq!["root"@]);
    v
}

/// The protocol of a declared custom service when none is named.
pub fn default_protocol() -> (r: String)
    ensures
        r@ == "http"@,
{
    String::from_str("http")
}

/// The account used to reach a fleet peer when none is named.
pub fn default_ssh_user() -> (r: String)
    ensures
        r@ == "root"@,
{
    String::from_str("root")
}

/// The part of `path` after its last '/'.
pub open spec fn file_name_of(path: Seq<char>) -> Seq<char> {
    path.subrange(last_index_of(path, '/') + 1, path.len() as int)
}

/// The extension of a file name: what follows its last '.', when that '.'
/// is not the name's first character.
pub open spec fn extension_of(name: Seq<char>) -> Option<Seq<char>> {
    let d = last_index_of(name, '.');
    if d > 0 {
        Some(name.subrange(d + 1, name.len() as int))
    } else {
        None
    }
}

/// Whether `path` names an overlay fragment: its extension is `yaml` or `yml`.
pub open spec fn is_overlay_path(path: Seq<char>) -> bool {
    match extension_of(file_name_of(path)) {
        Some(e) => e == seq!['y', 'a', 'm', 'l'] || e == seq!['y', 'm', 'l'],
        None => false,
    }
}

/// The overlays among `paths`, in their given order.
pub open spec fn overlays_among(paths: Seq<Seq<char>>) -> Seq<Seq<char>> {
    paths.filter(overlay_test())
}

/// `is_overlay_path` as a predicate value.
pub open spec fn overlay_test() -> spec_fn(Seq<char>) -> bool {
    |p: Seq<char>| is_overlay_path(p)
}

/// Whether overlay `a` applies before overlay `b`: by file name, and by the
/// whole path between equal names.
pub open spec fn overlay_before(a: Seq<char>, b: Seq<char>) -> bool {
    ||| text_less(file_name_of(a), file_name_of(b))
    ||| (file_name_of(a) == file_name_of(b) && text_less(a, b))
}

/// Whether `s` lists overlays in application order.
pub open spec fn in_overlay_order(s: Seq<Seq<char>>) -> bool {
    forall|i: int| 0 <= i < s.len() - 1 ==> !overlay_before(#[trigger] s[i + 1], s[i])
}

proof fn lemma_overlay_before_asymmetric(a: Seq<char>, b: Seq<char>)
    ensures
        overlay_before(a, b) ==> !overlay_before(b, a),
{
    lemma_text_less_asymmetric(file_name_of(a), file_name_of(b));
    lemma_text_less_asymmetric(file_name_of(a), file_name_of(a));
    lemma_text_less_asymmetric(a, b);
}

/// The file name of `path`.
fn file_name(path: &str) -> (r: String)
    ensures
        r@ == file_name_of(path@),
{
    let start = match find_last(path, '/') {
        Some(i) => i + 1,
        None => 0,
    };
    String::from_str(path.substring_char(start, path.unicode_len()))
}

/// Whether `path` names an overlay fragment.
pub fn is_overlay_file(path: &str) -> (r: bool)
    ensures
        r == is_overlay_path(path@),
{
    let name = file_name(path);
    let n = name.as_str();
    match find_last(n, '.') {
        Some(d) => {
            if d == 0 {
                return false;
            }
            let ext = String::from_str(n.substring_char(d + 1, n.unicode_len()));
            let yaml = String::from_str("yaml");
            let yml = String::from_str("yml");
            proof {
                reveal_strlit("yaml");
                reveal_strlit("yml");
                assert(yaml@ =~= seq!['y', 'a', 'm', 'l']);
                assert(yml@ =~= seq!['y', 'm', 'l']);
            }
            ext == yaml || ext == yml
        },
        None => false,
    }
}

/// Whether overlay `a` applies before overlay `b`.
pub fn applies_before(a: &str, b: &str) -> (r: bool)
    ensures
        r == overlay_before(a@, b@),
{
    let na = file_name(a);
    let nb = file_name(b);
    if less_than(na.as_str(), nb.as_str()) {
        true
    } else {
        na == nb && less_than(a, b)
    }
}

/// The overlays among `paths`, pooled from any number of directories, in
/// the order they apply: sorted by file name, whatever directory each
/// came from.
pub fn overlay_order(paths: &Vec<String>) -> (r: Vec<String>)
    ensures
        in_overlay_order(views(r@)),
        views(r@).to_multiset() == overlays_among(views(paths@)).to_multiset(),
{
    let mut out: Vec<String> = Vec::new();
    let mut i: usize = 0;
    assert(views(paths@).subrange(0, 0) =~= Seq::<Seq<char>>::empty());
    assert(views(out@) =~= Seq::<Seq<char>>::empty());
    proof {
        reveal(Seq::filter);
    }
    while i < paths.len()
        invariant
            i <= paths.len(),
            in_overlay_order(views(out@)),
            views(out@).to_multiset() == overlays_among(views(paths@).subrange(0, i as int)).to_multiset(),
        decreases paths.len() - i,
    {
        let x = paths[i].clone();
        let ghost before = views(paths@).subrange(0, i as int);
        assert(views(paths@).subrange(0, i + 1) =~= before.push(x@));
        if is_overlay_file(x.as_str()) {
            let mut j: usize = 0;
            let mut found = false;
            let ghost old_out = views(out@);
            while j < out.len() && !found
                invariant
                    j <= out.len(),
                    views(out@) == old_out,
                    found ==> j < out.len() && overlay_before(x@, views(out@)[j as int]),
                    forall|m: int| 0 <= m < j ==> !overlay_before(x@, #[trigger] views(out@)[m]),
                decreases out.len() - j + (if found { 0int } else { 1int }),
            {
                if applies_before(x.as_str(), out[j].as_str()) {
                    found = true;
                } else {
                    j = j + 1;
                }
            }
            proof {
                if j < out.len() {
                    lemma_overlay_before_asymmetric(x@, old_out[j as int]);
                }
                to_multiset_insert(old_out, j as int, x@);
            }
            let ghost xv = x@;
            out.insert(j, x);
            let ghost new_out = views(out@);
            assert(new_out =~= old_out.insert(j as int, xv));
            assert forall|m: int| 0 <= m < new_out.len() - 1 implies !overlay_before(
                #[trigger] new_out[m + 1],
                new_out[m],
            ) by {
                if m + 1 < j {
                    assert(new_out[m] == old_out[m] && new_out[m + 1] == old_out[m + 1]);
                } else if m + 1 == j {
                    assert(new_out[m] == old_out[m] && new_out[m + 1] == xv);
                } else if m == j {
                    assert(new_out[m] == xv && new_out[m + 1] == old_out[m]);
                } else {
                    assert(new_out[m] == old_out[m - 1] && new_out[m + 1] == old_out[m]);
                    assert(!overlay_before(old_out[(m - 1) + 1], old_out[m - 1]));
                }
            }
            proof {
                before.lemma_filter_push(xv, overlay_test());
            }
            assert(overlays_among(before.push(xv)) == overlays_among(before).push(xv));
            assert(overlays_among(before).push(xv).to_multiset() == overlays_among(
                before,
            ).to_multiset().insert(xv));
        } else {
            proof {
                before.lemma_filter_push(x@, overlay_test());
            }
            assert(overlays_among(before.push(x@)) == overlays_among(before));
        }
        i = i + 1;
    }
    assert(views(paths@).subrange(0, paths.len() as int) =~= views(paths@));
    out
}


/// The models of the overlays, in order; `None` stands for an overlay that
/// could not be read or parsed.
pub open spec fn overlay_models(os: Seq<Option<YamlValue>>) -> Seq<Option<Tree>> {
    os.map_values(
        |o: Option<YamlValue>|
            match o {
                Some(v) => Some(v@),
                None => None,
            },
    )
}

/// The base with each overlay merged onto it in turn; an overlay that could
/// not be read or parsed is skipped.
pub open spec fn merged_all(base: Tree, os: Seq<Option<Tree>>) -> Tree
    decreases os.len(),
{
    if os.len() == 0 {
        base
    } else {
        let acc = merged_all(base, os.subrange(0, os.len() - 1));
        match os[os.len() - 1] {
            Some(t) => merged(acc, t),
            None => acc,
        }
    }
}

/// Merges each overlay onto `base` in order, skipping those that could not
/// be read or parsed (`None`).
pub fn merge_overlays(base: YamlValue, overlays: Vec<Option<YamlValue>>) -> (r: YamlValue)
    ensures
        r@ == merged_all(base@, overlay_models(overlays@)),
{
    let ghost b0 = base@;
    let ghost os = overlay_models(overlays@);
    let ghost n = overlays.len();
    let mut acc = base;
    let mut rest = overlays;
    let mut k: usize = 0;
    assert(os.subrange(0, 0) =~= Seq::<Option<Tree>>::empty());
    assert(overlay_models(rest@) =~= os.subrange(0, n as int));
    while rest.len() > 0
        invariant
            k + rest.len() == n,
            os.len() == n,
            overlay_models(rest@) == os.subrange(k as int, n as int),
            acc@ == merged_all(b0, os.subrange(0, k as int)),
        decreases rest.len(),
    {
        let ghost before = rest@;
        let o = rest.remove(0);
        assert(os.subrange(0, k + 1).subrange(0, k as int) =~= os.subrange(0, k as int));
        assert(overlay_models(before)[0] == os[k as int]);
        assert(overlay_models(rest@) =~= os.subrange(k + 1, n as int)) by {
            assert(rest@ =~= before.subrange(1, before.len() as int));
            assert forall|j: int| 0 <= j < rest@.len() implies overlay_models(rest@)[j] == os[k + 1
                + j] by {
                assert(rest@[j] == before[j + 1]);
                assert(overlay_models(before)[j + 1] == os.subrange(k as int, n as int)[j + 1]);
            }
        }
        match o {
            Some(v) => {
                deep_merge(&mut acc, v);
            },
            None => {},
        }
        k = k + 1;
    }
    assert(os.subrange(0, n as int) =~= os);
    acc
}

/// What the overlay files hold, as (path, parsed content) values.
pub open spec fn files_model(files: Seq<(String, Option<YamlValue>)>) -> Seq<(Seq<char>, Option<Tree>)> {
    files.map_values(
        |f: (String, Option<YamlValue>)|
            (
                f.0@,
                match f.1 {
                    Some(v) => Some(v@),
                    None => None,
                },
            ),
    )
}

/// The content of the first file at `path` (none when it could not be read
/// or parsed, or no file has that path).
pub open spec fn content_at(files: Seq<(Seq<char>, Option<Tree>)>, path: Seq<char>) -> Option<Tree>
    decreases files.len(),
{
    if files.len() == 0 {
        None
    } else if files[0].0 == path {
        files[0].1
    } else {
        content_at(files.subrange(1, files.len() as int), path)
    }
}

fn content_at_exec(files: &Vec<(String, Option<YamlValue>)>, path: &String) -> (r: Option<YamlValue>)
    ensures
        overlay_models(seq![r])[0] == content_at(files_model(files@), path@),
{
    let ghost all = files_model(files@);
    let mut i: usize = 0;
    assert(all.subrange(0, all.len() as int) =~= all);
    while i < files.len()
        invariant
            i <= files.len(),
            all == files_model(files@),
            content_at(all, path@) == content_at(all.subrange(i as int, all.len() as int), path@),
        decreases files.len() - i,
    {
        let ghost rest = all.subrange(i as int, all.len() as int);
        assert(rest[0] == all[i as int]);
        assert(rest.subrange(1, rest.len() as int) =~= all.subrange(i + 1, all.len() as int));
        if files[i].0 == *path {
            return match &files[i].1 {
                Some(v) => Some(copy_value(v)),
                None => None,
            };
        }
        i = i + 1;
    }
    assert(all.subrange(i as int, all.len() as int) =~= Seq::<(Seq<char>, Option<Tree>)>::empty());
    None
}

/// The identity tree from the base document and every file found in the
/// overlay directories, pooled from all of them in any order, each with its
/// parsed content (`None`: it could not be read or parsed). The files that
/// are overlays (`yaml` or `yml`) apply in file-name order, whatever
/// directory each came from, with ties broken by the whole path; those that
/// could not be read or parsed are skipped; other files are ignored. A base
/// that could not be read or parsed fails the load.
pub fn load_with_overlays(
    base: Result<YamlValue, IdentityError>,
    files: &Vec<(String, Option<YamlValue>)>,
) -> (r: Result<YamlValue, IdentityError>)
    ensures
        match base {
            Ok(b) => r is Ok && exists|order: Seq<Seq<char>>|
                in_overlay_order(order) && order.to_multiset() == overlays_among(
                    files_model(files@).map_values(|f: (Seq<char>, Option<Tree>)| f.0),
                ).to_multiset() && r->Ok_0@ == merged_all(
                    b@,
                    order.map_values(|p: Seq<char>| content_at(files_model(files@), p)),
                ),
            Err(e) => r == Err::<YamlValue, IdentityError>(e),
        },
{
    let mut paths: Vec<String> = Vec::new();
    let mut i: usize = 0;
    let ghost fm = files_model(files@);
    let ghost names = fm.map_values(|f: (Seq<char>, Option<Tree>)| f.0);
    while i < files.len()
        invariant
            i <= files.len(),
            fm == files_model(files@),
            names == fm.map_values(|f: (Seq<char>, Option<Tree>)| f.0),
            views(paths@) == names.subrange(0, i as int),
        decreases files.len() - i,
    {
        let ghost before = views(paths@);
        paths.push(files[i].0.clone());
        assert(views(paths@) =~= before.push(names[i as int]));
        assert(names.subrange(0, i + 1) =~= names.subrange(0, i as int).push(names[i as int]));
        i = i + 1;
    }
    assert(names.subrange(0, files.len() as int) =~= names);
    let order = overlay_order(&paths);
    let ghost ov = views(order@);
    let ghost want = ov.map_values(|p: Seq<char>| content_at(fm, p));
    let mut contents: Vec<Option<YamlValue>> = Vec::new();
    let mut k: usize = 0;
    assert(overlay_models(contents@) =~= want.subrange(0, 0));
    while k < order.len()
        invariant
            k <= order.len(),
            fm == files_model(files@),
            ov == views(order@),
            want == ov.map_values(|p: Seq<char>| content_at(fm, p)),
            overlay_models(contents@) == want.subrange(0, k as int),
        decreases order.len() - k,
    {
        let c = content_at_exec(files, &order[k]);
        let ghost before = overlay_models(contents@);
        contents.push(c);
        assert(overlay_models(contents@) =~= before.push(overlay_models(seq![c])[0]));
        assert(want.subrange(0, k + 1) =~= want.subrange(0, k as int).push(want[k as int]));
        k = k + 1;
    }
    assert(want.subrange(0, order.len() as int) =~= want);
    match base {
        Ok(b) => {
            let merged = merge_overlays(b, contents);
            Ok(merged)
        },
        Err(e) => Err(e),
    }
}

/// The tree with each dot-separated field path of `fields` removed, in order.
pub open spec fn redacted(t: Tree, fields: Seq<Seq<char>>) -> Tree
    decreases fields.len(),
{
    if fields.len() == 0 {
        t
    } else {
        removed_path(
            redacted(t, fields.subrange(0, fields.len() - 1)),
            split_on(fields[fields.len() - 1], '.'),
        )
    }
}

/// After redaction none of the redacted paths names anything: every private
/// field is absent, however often a mapping repeats its key.
pub proof fn lemma_redacted_fields_absent(t: Tree, fields: Seq<Seq<char>>)
    ensures
        forall|i: int|
            0 <= i < fields.len() ==> !has_path(redacted(t, fields), #[trigger] split_on(fields[i], '.')),
    decreases fields.len(),
{
    if fields.len() > 0 {
        let init = fields.subrange(0, fields.len() - 1);
        let last = split_on(fields[fields.len() - 1], '.');
        lemma_redacted_fields_absent(t, init);
        lemma_split_on_nonempty(fields[fields.len() - 1], '.');
        lemma_removed_path_absent(redacted(t, init), last);
        assert forall|i: int| 0 <= i < fields.len() implies !has_path(
            redacted(t, fields),
            #[trigger] split_on(fields[i], '.'),
        ) by {
            if i < fields.len() - 1 {
                assert(init[i] == fields[i]);
                lemma_removed_path_keeps_absent(redacted(t, init), last, split_on(fields[i], '.'));
            }
        }
    }
}

/// A copy of `identity` with each dot-separated field path of
/// `private_fields` removed. A path that names nothing removes nothing.
pub fn redact(identity: &YamlValue, private_fields: &Vec<String>) -> (r: YamlValue)
    ensures
        r@ == redacted(identity@, views(private_fields@)),
        forall|i: int|
            0 <= i < private_fields@.len() ==> !has_path(
                r@,
                #[trigger] split_on(views(private_fields@)[i], '.'),
            ),
{
    proof {
        lemma_redacted_fields_absent(identity@, views(private_fields@));
    }
    let mut out = copy_value(identity);
    let mut i: usize = 0;
    let ghost fs = views(private_fields@);
    assert(fs.subrange(0, 0) =~= Seq::<Seq<char>>::empty());
    while i < private_fields.len()
        invariant
            i <= private_fields.len(),
            fs == views(private_fields@),
            out@ == redacted(identity@, fs.subrange(0, i as int)),
        decreases private_fields.len() - i,
    {
        remove_field_path(&mut out, private_fields[i].as_str());
        assert(fs.subrange(0, i + 1).subrange(0, i as int) =~= fs.subrange(0, i as int));
        i = i + 1;
    }
    assert(fs.subrange(0, private_fields.len() as int) =~= fs);
    out
}

} // verus!
