//! The web server's own decisions: its configuration, where it listens, the
//! data a page template is rendered with, what a failed render shows, and
//! where a compiled stylesheet goes.
use vstd::prelude::*;
use vstd::string::*;
use crate::keyed::{Keyed, keyed_map, find_key, lemma_keyed_map_update, lemma_keyed_map_push, keys_distinct};
use crate::text::{strip_suffix, has_suffix};

verus! {

/// Server settings read from the environment.
#[derive(Debug)]
pub struct ServerConfig {
    /// Development mode: templates are reloaded on every render.
    pub dev: bool,
    /// Directory that the site's files are found under.
    pub path_root: String,
}

impl ServerConfig {
    /// The settings: development mode when `DEV` is set, the root from
    /// `PATH_ROOT`, `.` when it is not set.
    pub fn from_env(dev_set: bool, path_root: Option<String>) -> (res: ServerConfig)
        ensures
            res.dev == dev_set,
            res.path_root@ == match path_root {
                Some(r) => r@,
                None => "."@,
            },
    {
        let path_root = match path_root {
            Some(r) => r,
            None => ".".to_owned(),
        };
        ServerConfig { dev: dev_set, path_root }
    }

    /// The path of `rel` under the root directory.
    pub fn path(&self, rel: &str) -> (res: String)
        ensures
            res@ == self.path_root@ + "/"@ + rel@,
    {
        let s = self.path_root.clone();
        s.concat("/").concat(rel)
    }
}

/// The address the server listens on: `HOST` (default `0.0.0.0`) and `PORT`
/// (default `9090`), joined by a colon.
pub fn bind_address(host: Option<String>, port: Option<String>) -> (res: String)
    ensures
        res@ == match host {
            Some(h) => h@,
            None => "0.0.0.0"@,
        } + ":"@ + match port {
            Some(p) => p@,
            None => "9090"@,
        },
{
    let h = match host {
        Some(h) => h,
        None => "0.0.0.0".to_owned(),
    };
    let p = match port {
        Some(p) => p,
        None => "9090".to_owned(),
    };
    h.concat(":").concat(p.as_str())
}

/// The body of a page response: the rendered page, or a bare 404 heading
/// when rendering failed.
pub fn render_fail_wrapper<E>(res: Result<String, E>) -> (body: String)
    ensures
        match res {
            Ok(content) => body@ == content@,
            Err(_) => body@ == "<h1>404</h1>"@,
        },
{
    match res {
        Ok(content) => content,
        Err(_) => "<h1>404</h1>".to_owned(),
    }
}

impl<V> Keyed for (String, V) {
    open spec fn key(&self) -> Seq<char> {
        self.0@
    }

    fn key_text(&self) -> (res: &String) {
        &self.0
    }
}

/// Entries with distinct keys read as a map from key to value.
pub open spec fn entries_map<V>(s: Seq<(String, V)>) -> Map<Seq<char>, V> {
    keyed_map(s).map_values(|e: (String, V)| e.1)
}

/// `m` with each entry of `entries` inserted in turn, later entries replacing
/// earlier ones with the same key.
pub open spec fn insert_all<V>(m: Map<Seq<char>, V>, entries: Seq<(String, V)>) -> Map<
    Seq<char>,
    V,
>
    decreases entries.len(),
{
    if entries.len() == 0 {
        m
    } else {
        insert_all(m, entries.drop_last()).insert(entries.last().0@, entries.last().1)
    }
}

/// The data a page template is rendered with: `page` holding the page's
/// name, then the page's own entries inserted over it.
pub fn template_context<V>(page: V, extra: Option<Vec<(String, V)>>) -> (res: Vec<(String, V)>)
    ensures
        keys_distinct(res@),
        entries_map(res@) == insert_all(
            Map::<Seq<char>, V>::empty().insert("page"@, page),
            match extra {
                Some(e) => e@,
                None => Seq::empty(),
            },
        ),
{
    let page_key = "page".to_owned();
    let mut out: Vec<(String, V)> = Vec::new();
    let ghost first = (page_key, page);
    out.push((page_key, page));
    proof {
        lemma_keyed_map_push(Seq::<(String, V)>::empty(), first);
        assert(Seq::<(String, V)>::empty().push(first) =~= out@);
        assert(keyed_map(Seq::<(String, V)>::empty()) =~= Map::empty());
        assert(entries_map(out@) =~= Map::<Seq<char>, V>::empty().insert("page"@, page));
    }
    let ghost m0 = entries_map(out@);
    match extra {
        None => {},
        Some(entries) => {
            let ghost es = entries@;
            let mut rest = entries;
            let ghost taken: int = 0;
            while rest.len() > 0
                invariant
                    0 <= taken <= es.len(),
                    rest@ == es.skip(taken),
                    keys_distinct(out@),
                    entries_map(out@) == insert_all(m0, es.take(taken)),
                decreases rest@.len(),
            {
                let e = rest.remove(0);
                let ghost eg = e;
                assert(es.take(taken + 1).drop_last() =~= es.take(taken));
                assert(es.take(taken + 1).last() == eg);
                let ghost before = out@;
                match find_key(&out, e.0.as_str()) {
                    Some(i) => {
                        out.set(i, e);
                        proof {
                            lemma_keyed_map_update(before, i as int, eg);
                        }
                    },
                    None => {
                        out.push(e);
                        proof {
                            lemma_keyed_map_push(before, eg);
                        }
                    },
                }
                proof {
                    assert(entries_map(out@) =~= entries_map(before).insert(eg.0@, eg.1));
                    taken = taken + 1;
                    assert(rest@ =~= es.skip(taken));
                }
            }
            assert(es.take(taken) =~= es);
        },
    }
    out
}

/// The first character is ASCII, or there is none.
pub open spec fn starts_ascii(s: Seq<char>) -> bool {
    s.len() == 0 || (s[0] as u32) < 128
}

/// Where the stylesheet compiled from `file_name` is written, under `root`,
/// and the path it is served from (the same path without its first
/// character, which must be ASCII); files whose name does not end in
/// `.scss` have none.
pub fn stylesheet_target(root: &str, file_name: &str) -> (res: Option<(String, String)>)
    requires
        has_suffix(file_name@, ".scss"@) ==> starts_ascii(root@),
    ensures
        match res {
            Some((css_file, public)) => has_suffix(file_name@, ".scss"@) && css_file@ == root@
                + "/static/styles/"@ + file_name@.subrange(0, file_name@.len() - 5) + ".css"@
                && public@ == css_file@.drop_first(),
            None => !has_suffix(file_name@, ".scss"@),
        },
{
    proof {
        reveal_strlit(".scss");
    }
    let stem = match strip_suffix(file_name, ".scss") {
        Some(s) => s,
        None => {
            return None;
        },
    };
    let css_file = root.to_owned().concat("/static/styles/").concat(stem.as_str()).concat(".css");
    proof {
        reveal_strlit("/static/styles/");
    }
    let n = css_file.as_str().unicode_len();
    let public = css_file.as_str().substring_char(1, n).to_owned();
    assert(public@ =~= css_file@.drop_first());
    Some((css_file, public))
}

} // verus!
