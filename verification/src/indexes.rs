//! Idempotent merge of edition entries into the persisted outline
//! documents.  Each document is a sequence of lines; a merge locates the
//! heading for the edition's date, scans the contiguous block of indented
//! entry lines beneath it, and inserts the new time-slot entry only when no
//! identical entry is already there.  Re-running a merge with the same date
//! and time slot leaves the document byte-identical.

use crate::models::{AwfulNewsArticle, FrontPage};
use crate::utils::{lex_le, seq_contains_sub, seq_starts_with, slug_of_title, trim_spec, upcase_spec};
use vstd::prelude::*;

verus! {

// ---- line renderings ----

/// The unindented edition link: `- [Slot](./file)`.
pub open spec fn edition_link_core(tod: Seq<char>, file: Seq<char>) -> Seq<char> {
    "- ["@ + upcase_spec(tod) + "](./"@ + file + ")"@
}

/// The date heading of the chronological index: `- [**date**](./date.md)`.
pub open spec fn daily_date_heading(date: Seq<char>) -> Seq<char> {
    "- [**"@ + date + "**](./"@ + date + ".md)"@
}

/// The indented edition entry of the chronological index.
pub open spec fn daily_edition_entry(tod: Seq<char>, file: Seq<char>) -> Seq<char> {
    "    "@ + edition_link_core(tod, file)
}

/// The date heading of the navigation manifest.
pub open spec fn summary_date_heading(date: Seq<char>) -> Seq<char> {
    "    - ["@ + date + "](./"@ + date + ".md)"@
}

/// The indented edition entry of the navigation manifest.
pub open spec fn summary_edition_entry(tod: Seq<char>, file: Seq<char>) -> Seq<char> {
    "        "@ + edition_link_core(tod, file)
}

fn render_edition_link_core(tod: &String, file: &String) -> (r: String)
    ensures
        r@ == edition_link_core(tod@, file@),
{
    let mut r = "- [".to_owned();
    let u = crate::utils::upcase(tod.as_str());
    r.append(u.as_str());
    r.append("](./");
    r.append(file.as_str());
    r.append(")");
    r
}

fn render_daily_date_heading(date: &String) -> (r: String)
    ensures
        r@ == daily_date_heading(date@),
{
    let mut r = "- [**".to_owned();
    r.append(date.as_str());
    r.append("**](./");
    r.append(date.as_str());
    r.append(".md)");
    r
}

fn render_daily_edition_entry(tod: &String, file: &String) -> (r: String)
    ensures
        r@ == daily_edition_entry(tod@, file@),
{
    let mut r = "    ".to_owned();
    let core = render_edition_link_core(tod, file);
    r.append(core.as_str());
    r
}

fn render_summary_date_heading(date: &String) -> (r: String)
    ensures
        r@ == summary_date_heading(date@),
{
    let mut r = "    - [".to_owned();
    r.append(date.as_str());
    r.append("](./");
    r.append(date.as_str());
    r.append(".md)");
    r
}

fn render_summary_edition_entry(tod: &String, file: &String) -> (r: String)
    ensures
        r@ == summary_edition_entry(tod@, file@),
{
    let mut r = "        ".to_owned();
    let core = render_edition_link_core(tod, file);
    r.append(core.as_str());
    r
}

// ---- scanning ----

/// The first line at or after `i` whose trimmed form equals the trimmed
/// target, or -1.
pub open spec fn find_trim_eq_from(lines: Seq<Seq<char>>, target: Seq<char>, i: int) -> int
    decreases lines.len() - i,
{
    if i < 0 || i >= lines.len() {
        -1
    } else if trim_spec(lines[i]) == trim_spec(target) {
        i
    } else {
        find_trim_eq_from(lines, target, i + 1)
    }
}

/// The first line at or after `i` that starts with `p`, or -1.
pub open spec fn find_starts_with_from(lines: Seq<Seq<char>>, p: Seq<char>, i: int) -> int
    decreases lines.len() - i,
{
    if i < 0 || i >= lines.len() {
        -1
    } else if seq_starts_with(lines[i], p) {
        i
    } else {
        find_starts_with_from(lines, p, i + 1)
    }
}

/// The first line at or after `i` that contains `p`, or -1.
pub open spec fn find_contains_from(lines: Seq<Seq<char>>, p: Seq<char>, i: int) -> int
    decreases lines.len() - i,
{
    if i < 0 || i >= lines.len() {
        -1
    } else if seq_contains_sub(lines[i], p) {
        i
    } else {
        find_contains_from(lines, p, i + 1)
    }
}

/// The end of the contiguous block of lines starting at `i` that all start
/// with `prefix`.
pub open spec fn block_end_from(lines: Seq<Seq<char>>, prefix: Seq<char>, i: int) -> int
    decreases lines.len() - i,
{
    if i < 0 || i >= lines.len() {
        lines.len() as int
    } else if !seq_starts_with(lines[i], prefix) {
        i
    } else {
        block_end_from(lines, prefix, i + 1)
    }
}

pub proof fn lemma_find_trim_eq_bounds(lines: Seq<Seq<char>>, target: Seq<char>, i: int)
    requires
        0 <= i <= lines.len(),
    ensures
        find_trim_eq_from(lines, target, i) == -1 || i <= find_trim_eq_from(lines, target, i)
            < lines.len(),
    decreases lines.len() - i,
{
    if i < lines.len() && trim_spec(lines[i]) != trim_spec(target) {
        lemma_find_trim_eq_bounds(lines, target, i + 1);
    }
}

pub proof fn lemma_find_starts_with_bounds(lines: Seq<Seq<char>>, p: Seq<char>, i: int)
    requires
        0 <= i <= lines.len(),
    ensures
        find_starts_with_from(lines, p, i) == -1 || i <= find_starts_with_from(lines, p, i)
            < lines.len(),
    decreases lines.len() - i,
{
    if i < lines.len() && !seq_starts_with(lines[i], p) {
        lemma_find_starts_with_bounds(lines, p, i + 1);
    }
}

pub proof fn lemma_find_contains_bounds(lines: Seq<Seq<char>>, p: Seq<char>, i: int)
    requires
        0 <= i <= lines.len(),
    ensures
        find_contains_from(lines, p, i) == -1 || i <= find_contains_from(lines, p, i)
            < lines.len(),
    decreases lines.len() - i,
{
    if i < lines.len() && !seq_contains_sub(lines[i], p) {
        lemma_find_contains_bounds(lines, p, i + 1);
    }
}

pub proof fn lemma_block_end_bounds(lines: Seq<Seq<char>>, prefix: Seq<char>, i: int)
    requires
        0 <= i <= lines.len(),
    ensures
        i <= block_end_from(lines, prefix, i) <= lines.len(),
    decreases lines.len() - i,
{
    if i < lines.len() && seq_starts_with(lines[i], prefix) {
        lemma_block_end_bounds(lines, prefix, i + 1);
    }
}

/// Whether a line in `[start, end)` has the trimmed form of `target`.
pub open spec fn block_has_trim(
    lines: Seq<Seq<char>>,
    start: int,
    end: int,
    target: Seq<char>,
) -> bool {
    exists|j: int| start <= j < end && trim_spec(#[trigger] lines[j]) == trim_spec(target)
}

fn find_trim_eq(lines: &Vec<String>, target: &String) -> (r: Option<usize>)
    ensures
        r matches Some(i) ==> i < lines@.len() && i < usize::MAX && find_trim_eq_from(
            lines.deep_view(),
            target@,
            0,
        ) == i,
        r is None ==> find_trim_eq_from(lines.deep_view(), target@, 0) == -1,
{
    let ghost dv = lines.deep_view();
    let n = lines.len();
    let mut i: usize = 0;
    while i < n
        invariant
            n == lines@.len(),
            dv == lines.deep_view(),
            dv.len() == n,
            0 <= i <= n,
            find_trim_eq_from(dv, target@, 0) == find_trim_eq_from(dv, target@, i as int),
        decreases n - i,
    {
        proof {
            assert(dv[i as int] == lines@[i as int]@);
        }
        if crate::utils::trim_eq(lines[i].as_str(), target.as_str()) {
            return Some(i);
        }
        i = i + 1;
    }
    None
}

fn find_starts_with(lines: &Vec<String>, p: &str) -> (r: Option<usize>)
    ensures
        r matches Some(i) ==> i < lines@.len() && i < usize::MAX && find_starts_with_from(
            lines.deep_view(),
            p@,
            0,
        ) == i,
        r is None ==> find_starts_with_from(lines.deep_view(), p@, 0) == -1,
{
    let ghost dv = lines.deep_view();
    let n = lines.len();
    let mut i: usize = 0;
    while i < n
        invariant
            n == lines@.len(),
            dv == lines.deep_view(),
            dv.len() == n,
            0 <= i <= n,
            find_starts_with_from(dv, p@, 0) == find_starts_with_from(dv, p@, i as int),
        decreases n - i,
    {
        proof {
            assert(dv[i as int] == lines@[i as int]@);
        }
        if crate::utils::starts_with_str(lines[i].as_str(), p) {
            return Some(i);
        }
        i = i + 1;
    }
    None
}

fn find_contains(lines: &Vec<String>, p: &str) -> (r: Option<usize>)
    ensures
        r matches Some(i) ==> i < lines@.len() && i < usize::MAX && find_contains_from(
            lines.deep_view(),
            p@,
            0,
        ) == i,
        r is None ==> find_contains_from(lines.deep_view(), p@, 0) == -1,
{
    let ghost dv = lines.deep_view();
    let n = lines.len();
    let mut i: usize = 0;
    while i < n
        invariant
            n == lines@.len(),
            dv == lines.deep_view(),
            dv.len() == n,
            0 <= i <= n,
            find_contains_from(dv, p@, 0) == find_contains_from(dv, p@, i as int),
        decreases n - i,
    {
        proof {
            assert(dv[i as int] == lines@[i as int]@);
        }
        if crate::utils::contains_sub(lines[i].as_str(), p) {
            return Some(i);
        }
        i = i + 1;
    }
    None
}

fn block_end(lines: &Vec<String>, prefix: &str, start: usize) -> (r: usize)
    requires
        start <= lines@.len(),
    ensures
        r == block_end_from(lines.deep_view(), prefix@, start as int),
        start <= r <= lines@.len(),
{
    let ghost dv = lines.deep_view();
    let n = lines.len();
    let mut i: usize = start;
    while i < n
        invariant
            n == lines@.len(),
            dv == lines.deep_view(),
            dv.len() == n,
            start <= i <= n,
            block_end_from(dv, prefix@, start as int) == block_end_from(dv, prefix@, i as int),
        decreases n - i,
    {
        proof {
            assert(dv[i as int] == lines@[i as int]@);
        }
        if !crate::utils::starts_with_str(lines[i].as_str(), prefix) {
            return i;
        }
        i = i + 1;
    }
    n
}

fn block_has(lines: &Vec<String>, start: usize, end: usize, target: &String) -> (r: bool)
    requires
        start <= end <= lines@.len(),
    ensures
        r == block_has_trim(lines.deep_view(), start as int, end as int, target@),
{
    let ghost dv = lines.deep_view();
    let mut j: usize = start;
    while j < end
        invariant
            dv == lines.deep_view(),
            dv.len() == lines@.len(),
            end <= lines@.len(),
            start <= j <= end,
            !block_has_trim(dv, start as int, j as int, target@),
        decreases end - j,
    {
        proof {
            assert(dv[j as int] == lines@[j as int]@);
        }
        if crate::utils::trim_eq(lines[j].as_str(), target.as_str()) {
            proof {
                assert(trim_spec(dv[j as int]) == trim_spec(target@));
            }
            return true;
        }
        j = j + 1;
    }
    false
}

// ---- the chronological index (one file for all dates) ----

/// The seed of the chronological index: the existing document, or its
/// fixed header and a blank line.
pub open spec fn daily_seed(existing: Option<Seq<Seq<char>>>) -> Seq<Seq<char>> {
    match existing {
        Some(l) => l,
        None => seq!["# Awful News Index"@, ""@],
    }
}

/// One merge into the chronological index.  With the date heading present,
/// the edition entry is inserted at the end of its block unless an
/// identical entry is already there; with the date absent, a blank line,
/// the heading and the entry go right below the fixed header, or to the
/// end of a document without one.
pub open spec fn merge_daily_spec(
    existing: Option<Seq<Seq<char>>>,
    date: Seq<char>,
    tod: Seq<char>,
    file: Seq<char>,
) -> Seq<Seq<char>> {
    let lines = daily_seed(existing);
    let dh = daily_date_heading(date);
    let ee = daily_edition_entry(tod, file);
    let hi = find_trim_eq_from(lines, dh, 0);
    if hi >= 0 {
        let be = block_end_from(lines, "    - "@, hi + 1);
        if block_has_trim(lines, hi + 1, be, ee) {
            lines
        } else {
            lines.insert(be, ee)
        }
    } else {
        let hp = find_starts_with_from(lines, "# Awful News Index"@, 0);
        if hp >= 0 {
            lines.insert(hp + 1, ""@).insert(hp + 2, dh).insert(hp + 3, ee)
        } else {
            lines.push(dh).push(ee)
        }
    }
}

/// Merge this edition into the chronological index document.
#[verifier::rlimit(50)]
pub fn update_daily_news_index(
    existing: Option<Vec<String>>,
    front_page: &FrontPage,
    markdown_filename: &String,
) -> (r: Vec<String>)
    ensures
        r.deep_view() == merge_daily_spec(
            existing.deep_view(),
            front_page.local_date@,
            front_page.time_of_day@,
            markdown_filename@,
        ),
{
    let mut lines: Vec<String> = match existing {
        Some(v) => v,
        None => {
            let mut l: Vec<String> = Vec::new();
            l.push("# Awful News Index".to_owned());
            l.push(String::new());
            proof {
                reveal_strlit("");
                assert(l.deep_view()[1] =~= ""@);
                assert(l.deep_view() =~= seq!["# Awful News Index"@, ""@]);
            }
            l
        },
    };
    let dh = render_daily_date_heading(&front_page.local_date);
    let ee = render_daily_edition_entry(&front_page.time_of_day, markdown_filename);
    match find_trim_eq(&lines, &dh) {
        Some(h) => {
            let be = block_end(&lines, "    - ", h + 1);
            let found = block_has(&lines, h + 1, be, &ee);
            if !found {
                let ghost before = lines.deep_view();
                lines.insert(be, ee);
                proof {
                    assert(lines.deep_view() =~= before.insert(be as int, ee@));
                }
            }
            lines
        },
        None => {
            match find_starts_with(&lines, "# Awful News Index") {
                Some(p) => {
                    let ghost b0 = lines.deep_view();
                    lines.insert(p + 1, ee);
                    let ghost b1 = lines.deep_view();
                    lines.insert(p + 1, dh);
                    let ghost b2 = lines.deep_view();
                    lines.insert(p + 1, String::new());
                    proof {
                        reveal_strlit("");
                        assert(""@ =~= Seq::<char>::empty());
                        assert(b1 =~= b0.insert(p + 1, ee@));
                        assert(b2 =~= b1.insert(p + 1, dh@));
                        assert(lines.deep_view() =~= b2.insert(p + 1, ""@));
                        b0.insert_ensures(p + 1, ee@);
                        assert(lines.deep_view() =~= b0.insert(p + 1, ""@).insert(
                            p + 2,
                            dh@,
                        ).insert(p + 3, ee@));
                    }
                    lines
                },
                None => {
                    let ghost before = lines.deep_view();
                    lines.push(dh);
                    lines.push(ee);
                    proof {
                        assert(lines.deep_view() =~= before.push(dh@).push(ee@));
                    }
                    lines
                },
            }
        },
    }
}

// ---- the navigation manifest ----

/// The seed of the navigation manifest: the existing document, or the
/// fixed skeleton with its anchor line.
pub open spec fn summary_seed(existing: Option<Seq<Seq<char>>>) -> Seq<Seq<char>> {
    match existing {
        Some(l) => l,
        None => seq![
            "# Summary"@,
            ""@,
            "[Home](./home.md)"@,
            "- [PGP](./pgp.md)"@,
            "- [Contact](./contact.md)"@,
            "- [Daily News](./daily_news.md)"@,
        ],
    }
}

/// One merge into the navigation manifest.  With the date heading present,
/// the edition entry is inserted at the end of its block unless already
/// there; with the date absent, the heading and entry go right below the
/// first line holding the anchor text, and nowhere when no line holds it.
pub open spec fn merge_summary_spec(
    existing: Option<Seq<Seq<char>>>,
    date: Seq<char>,
    tod: Seq<char>,
    file: Seq<char>,
) -> Seq<Seq<char>> {
    let lines = summary_seed(existing);
    let dh = summary_date_heading(date);
    let ee = summary_edition_entry(tod, file);
    let hi = find_trim_eq_from(lines, dh, 0);
    if hi >= 0 {
        let be = block_end_from(lines, "        - "@, hi + 1);
        if block_has_trim(lines, hi + 1, be, ee) {
            lines
        } else {
            lines.insert(be, ee)
        }
    } else {
        let hp = find_contains_from(lines, "- [Daily News]"@, 0);
        if hp >= 0 {
            lines.insert(hp + 1, dh).insert(hp + 2, ee)
        } else {
            lines
        }
    }
}

/// Merge this edition into the navigation manifest document.
#[verifier::rlimit(50)]
pub fn update_summary_md(
    existing: Option<Vec<String>>,
    front_page: &FrontPage,
    markdown_filename: &String,
) -> (r: Vec<String>)
    ensures
        r.deep_view() == merge_summary_spec(
            existing.deep_view(),
            front_page.local_date@,
            front_page.time_of_day@,
            markdown_filename@,
        ),
{
    let mut lines: Vec<String> = match existing {
        Some(v) => v,
        None => {
            let mut l: Vec<String> = Vec::new();
            l.push("# Summary".to_owned());
            l.push(String::new());
            l.push("[Home](./home.md)".to_owned());
            l.push("- [PGP](./pgp.md)".to_owned());
            l.push("- [Contact](./contact.md)".to_owned());
            l.push("- [Daily News](./daily_news.md)".to_owned());
            proof {
                reveal_strlit("");
                assert(l.deep_view()[1] =~= ""@);
                assert(l.deep_view() =~= summary_seed(None));
            }
            l
        },
    };
    let dh = render_summary_date_heading(&front_page.local_date);
    let ee = render_summary_edition_entry(&front_page.time_of_day, markdown_filename);
    match find_trim_eq(&lines, &dh) {
        Some(h) => {
            let be = block_end(&lines, "        - ", h + 1);
            let found = block_has(&lines, h + 1, be, &ee);
            if !found {
                let ghost before = lines.deep_view();
                lines.insert(be, ee);
                proof {
                    assert(lines.deep_view() =~= before.insert(be as int, ee@));
                }
            }
            lines
        },
        None => {
            match find_contains(&lines, "- [Daily News]") {
                Some(p) => {
                    let ghost b0 = lines.deep_view();
                    lines.insert(p + 1, ee);
                    let ghost b1 = lines.deep_view();
                    lines.insert(p + 1, dh);
                    proof {
                        assert(b1 =~= b0.insert(p + 1, ee@));
                        assert(lines.deep_view() =~= b1.insert(p + 1, dh@));
                        assert(lines.deep_view() =~= b0.insert(p + 1, dh@).insert(
                            p + 2,
                            ee@,
                        ));
                    }
                    lines
                },
                None => lines,
            }
        },
    }
}

// ---- the per-date table of contents ----

/// The header of a fresh date TOC.
pub open spec fn toc_header(date: Seq<char>) -> Seq<char> {
    "# Editions published on "@ + date
}

/// `c` placed into an ascending, duplicate-free category list.
pub open spec fn insert_sorted(cats: Seq<Seq<char>>, c: Seq<char>) -> Seq<Seq<char>>
    decreases cats.len(),
{
    if cats.len() == 0 {
        seq![c]
    } else if c == cats[0] {
        cats
    } else if lex_le(c, cats[0]) {
        seq![c] + cats
    } else {
        seq![cats[0]] + insert_sorted(cats.drop_first(), c)
    }
}

/// The distinct categories of the articles, in ascending order.
pub open spec fn sorted_categories(articles: Seq<AwfulNewsArticle>) -> Seq<Seq<char>>
    decreases articles.len(),
{
    if articles.len() == 0 {
        Seq::empty()
    } else {
        insert_sorted(sorted_categories(articles.drop_last()), articles.last().category@)
    }
}

/// The articles bearing the given category, in input order.
pub open spec fn articles_with_category(arts: Seq<AwfulNewsArticle>, cat: Seq<char>) -> Seq<
    AwfulNewsArticle,
>
    decreases arts.len(),
{
    if arts.len() == 0 {
        Seq::empty()
    } else {
        let pre = articles_with_category(arts.drop_last(), cat);
        if arts.last().category@ == cat {
            pre.push(arts.last())
        } else {
            pre
        }
    }
}

/// The source-tag decoration of an article line, when the article has a
/// source tag.
pub open spec fn toc_tag_part(a: AwfulNewsArticle) -> Seq<char> {
    match a.source_tag_view() {
        Some(t) => " <small>`"@ + t + "`</small>"@,
        None => Seq::empty(),
    }
}

/// The anchor of an article: the title slug, disambiguated by the source
/// tag when there is one.
pub open spec fn toc_anchor(a: AwfulNewsArticle) -> Seq<char> {
    match a.source_tag_view() {
        Some(t) => slug_of_title(a.title@) + "---"@ + t,
        None => slug_of_title(a.title@),
    }
}

/// One article line of the category tree.
pub open spec fn toc_article_line(a: AwfulNewsArticle, file: Seq<char>) -> Seq<char> {
    "\t\t- "@ + toc_tag_part(a) + " - ["@ + a.title@ + "]("@ + file + "#"@ + toc_anchor(a)
        + ")"@
}

/// One category heading line of the category tree.
pub open spec fn toc_category_line(cat: Seq<char>, file: Seq<char>) -> Seq<char> {
    "\t- [**"@ + cat + "**]("@ + file + "#"@ + slug_of_title(cat) + ")"@
}

/// The article lines for a list of articles.
pub open spec fn toc_article_lines(arts: Seq<AwfulNewsArticle>, file: Seq<char>) -> Seq<Seq<char>>
    decreases arts.len(),
{
    if arts.len() == 0 {
        Seq::empty()
    } else {
        toc_article_lines(arts.drop_last(), file).push(toc_article_line(arts.last(), file))
    }
}

/// The category tree: per category its heading line and the lines of its
/// articles.
pub open spec fn toc_sections(
    articles: Seq<AwfulNewsArticle>,
    cats: Seq<Seq<char>>,
    file: Seq<char>,
) -> Seq<Seq<char>>
    decreases cats.len(),
{
    if cats.len() == 0 {
        Seq::empty()
    } else {
        toc_sections(articles, cats.drop_last(), file) + seq![
            toc_category_line(cats.last(), file),
        ] + toc_article_lines(articles_with_category(articles, cats.last()), file)
    }
}

/// The lines one edition appends to its date TOC: the edition link and a
/// freshly derived category tree.
pub open spec fn toc_block(
    articles: Seq<AwfulNewsArticle>,
    tod: Seq<char>,
    file: Seq<char>,
) -> Seq<Seq<char>> {
    seq![edition_link_core(tod, file)] + toc_sections(articles, sorted_categories(articles), file)
}

/// One merge into the date TOC.  A fresh document starts with the date
/// header; when the edition link is already present the document is left
/// untouched, otherwise the link and the category tree are appended.  The
/// tree is rendered only when its link is first inserted; a later run with
/// the same date and slot does not reconcile it.
pub open spec fn merge_date_toc_spec(
    existing: Option<Seq<Seq<char>>>,
    fp: FrontPage,
    file: Seq<char>,
) -> Seq<Seq<char>> {
    let lines = match existing {
        Some(l) => l,
        None => seq![toc_header(fp.local_date@), ""@],
    };
    let link = edition_link_core(fp.time_of_day@, file);
    if find_trim_eq_from(lines, link, 0) >= 0 {
        lines
    } else {
        lines + toc_block(fp.articles@, fp.time_of_day@, file)
    }
}

fn render_toc_header(date: &String) -> (r: String)
    ensures
        r@ == toc_header(date@),
{
    let mut r = "# Editions published on ".to_owned();
    r.append(date.as_str());
    r
}

fn render_toc_category_line(cat: &String, file: &String) -> (r: String)
    ensures
        r@ == toc_category_line(cat@, file@),
{
    let slug = crate::utils::slugify_title(cat.as_str());
    let mut r = "\t- [**".to_owned();
    r.append(cat.as_str());
    r.append("**](");
    r.append(file.as_str());
    r.append("#");
    r.append(slug.as_str());
    r.append(")");
    proof {
        assert(r@ =~= toc_category_line(cat@, file@));
    }
    r
}

fn render_toc_article_line(a: &AwfulNewsArticle, file: &String) -> (r: String)
    ensures
        r@ == toc_article_line(*a, file@),
{
    let tag = a.source_tag();
    let slug = crate::utils::slugify_title(a.title.as_str());
    let mut r = "\t\t- ".to_owned();
    match &tag {
        Some(t) => {
            r.append(" <small>`");
            r.append(t.as_str());
            r.append("`</small>");
        },
        None => {},
    }
    r.append(" - [");
    r.append(a.title.as_str());
    r.append("](");
    r.append(file.as_str());
    r.append("#");
    r.append(slug.as_str());
    match &tag {
        Some(t) => {
            r.append("---");
            r.append(t.as_str());
        },
        None => {},
    }
    r.append(")");
    proof {
        assert(r@ =~= toc_article_line(*a, file@));
    }
    r
}

fn insert_sorted_exec(cats: Vec<String>, c: String) -> (r: Vec<String>)
    ensures
        r.deep_view() == insert_sorted(cats.deep_view(), c@),
{
    let ghost dv = cats.deep_view();
    let n = cats.len();
    let mut i: usize = 0;
    proof {
        assert(dv.skip(0) =~= dv);
        assert(dv.subrange(0, 0) + insert_sorted(dv.skip(0), c@) =~= insert_sorted(dv, c@));
    }
    while i < n
        invariant
            n == cats@.len(),
            dv == cats.deep_view(),
            dv.len() == n,
            0 <= i <= n,
            insert_sorted(dv, c@) == dv.subrange(0, i as int) + insert_sorted(
                dv.skip(i as int),
                c@,
            ),
        decreases n - i,
    {
        proof {
            assert(dv[i as int] == cats@[i as int]@);
            assert(dv.skip(i as int)[0] == dv[i as int]);
        }
        if cats[i] == c {
            proof {
                assert(insert_sorted(dv.skip(i as int), c@) =~= dv.skip(i as int));
                assert(dv.subrange(0, i as int) + dv.skip(i as int) =~= dv);
            }
            return cats;
        }
        if crate::utils::str_lex_le(c.as_str(), cats[i].as_str()) {
            proof {
                assert(insert_sorted(dv.skip(i as int), c@) =~= seq![c@] + dv.skip(i as int));
                assert(dv.subrange(0, i as int) + (seq![c@] + dv.skip(i as int)) =~= dv.insert(
                    i as int,
                    c@,
                ));
            }
            let ghost before = dv;
            let mut out = cats;
            out.insert(i, c);
            proof {
                assert(out.deep_view() =~= before.insert(i as int, c@));
            }
            return out;
        }
        proof {
            assert(insert_sorted(dv.skip(i as int), c@) =~= seq![dv[i as int]] + insert_sorted(
                dv.skip(i as int).drop_first(),
                c@,
            ));
            assert(dv.skip(i as int).drop_first() =~= dv.skip(i + 1));
            assert(dv.subrange(0, i as int) + (seq![dv[i as int]] + insert_sorted(
                dv.skip(i + 1),
                c@,
            )) =~= dv.subrange(0, i + 1) + insert_sorted(dv.skip(i + 1), c@));
        }
        i = i + 1;
    }
    proof {
        assert(dv.skip(n as int) =~= Seq::<Seq<char>>::empty());
        assert(insert_sorted(dv.skip(n as int), c@) =~= seq![c@]);
    }
    let mut out = cats;
    out.push(c);
    proof {
        assert(out.deep_view() =~= dv.subrange(0, n as int) + seq![c@]);
        assert(dv.subrange(0, n as int) + seq![c@] =~= insert_sorted(dv, c@));
    }
    out
}

/// Merge this edition into its date TOC document.
pub fn update_date_toc_file(
    existing: Option<Vec<String>>,
    front_page: &FrontPage,
    markdown_filename: &String,
) -> (r: Vec<String>)
    ensures
        r.deep_view() == merge_date_toc_spec(
            existing.deep_view(),
            *front_page,
            markdown_filename@,
        ),
{
    let mut lines: Vec<String> = match existing {
        Some(v) => v,
        None => {
            let mut l: Vec<String> = Vec::new();
            l.push(render_toc_header(&front_page.local_date));
            l.push(String::new());
            proof {
                reveal_strlit("");
                assert(l.deep_view()[1] =~= ""@);
                assert(l.deep_view() =~= seq![toc_header(front_page.local_date@), ""@]);
            }
            l
        },
    };
    let link = render_edition_link_core(&front_page.time_of_day, markdown_filename);
    match find_trim_eq(&lines, &link) {
        Some(_) => lines,
        None => {
            let ghost base = lines.deep_view();
            let ghost arts = front_page.articles@;
            let ghost file = markdown_filename@;
            lines.push(link);
            proof {
                assert(lines.deep_view() =~= base + seq![
                    edition_link_core(front_page.time_of_day@, file),
                ]);
            }
            let ghost based = lines.deep_view();
            // collect the distinct categories in ascending order
            let mut cats: Vec<String> = Vec::new();
            let na = front_page.articles.len();
            let mut i: usize = 0;
            proof {
                assert(cats.deep_view() =~= sorted_categories(arts.subrange(0, 0)));
            }
            while i < na
                invariant
                    na == arts.len(),
                    arts == front_page.articles@,
                    0 <= i <= na,
                    cats.deep_view() == sorted_categories(arts.subrange(0, i as int)),
                decreases na - i,
            {
                let c = front_page.articles[i].category.clone();
                proof {
                    assert(arts.subrange(0, i + 1).drop_last() =~= arts.subrange(0, i as int));
                    assert(arts.subrange(0, i + 1).last() == arts[i as int]);
                }
                cats = insert_sorted_exec(cats, c);
                i = i + 1;
            }
            proof {
                assert(arts.subrange(0, na as int) =~= arts);
            }
            // append one section per category
            let ghost catsv = cats.deep_view();
            let nc = cats.len();
            let mut ci: usize = 0;
            proof {
                assert(catsv.subrange(0, 0) =~= Seq::<Seq<char>>::empty());
                assert(lines.deep_view() =~= based + toc_sections(
                    arts,
                    catsv.subrange(0, 0),
                    file,
                ));
            }
            while ci < nc
                invariant
                    na == arts.len(),
                    nc == cats@.len(),
                    catsv == cats.deep_view(),
                    catsv.len() == nc,
                    arts == front_page.articles@,
                    file == markdown_filename@,
                    0 <= ci <= nc,
                    lines.deep_view() == based + toc_sections(
                        arts,
                        catsv.subrange(0, ci as int),
                        file,
                    ),
                decreases nc - ci,
            {
                proof {
                    assert(catsv[ci as int] == cats@[ci as int]@);
                }
                let ghost cat = catsv[ci as int];
                let cl = render_toc_category_line(&cats[ci], markdown_filename);
                let ghost before_cat = lines.deep_view();
                lines.push(cl);
                proof {
                    assert(lines.deep_view() =~= before_cat + seq![toc_category_line(cat, file)]);
                    assert(articles_with_category(arts.subrange(0, 0), cat) =~= Seq::<
                        AwfulNewsArticle,
                    >::empty());
                    assert(toc_article_lines(
                        articles_with_category(arts.subrange(0, 0), cat),
                        file,
                    ) =~= Seq::<Seq<char>>::empty());
                    assert(lines.deep_view() =~= before_cat + seq![
                        toc_category_line(cat, file),
                    ] + toc_article_lines(
                        articles_with_category(arts.subrange(0, 0), cat),
                        file,
                    ));
                }
                let mut j: usize = 0;
                while j < na
                    invariant
                        na == arts.len(),
                        arts == front_page.articles@,
                        file == markdown_filename@,
                        cat == catsv[ci as int],
                        ci < nc,
                        nc == cats@.len(),
                        catsv == cats.deep_view(),
                        0 <= j <= na,
                        lines.deep_view() == before_cat + seq![
                            toc_category_line(cat, file),
                        ] + toc_article_lines(
                            articles_with_category(arts.subrange(0, j as int), cat),
                            file,
                        ),
                    decreases na - j,
                {
                    proof {
                        assert(arts.subrange(0, j + 1).drop_last() =~= arts.subrange(
                            0,
                            j as int,
                        ));
                        assert(arts.subrange(0, j + 1).last() == arts[j as int]);
                    }
                    if front_page.articles[j].category == cats[ci] {
                        let al = render_toc_article_line(&front_page.articles[j],
                            markdown_filename);
                        let ghost before_art = lines.deep_view();
                        lines.push(al);
                        proof {
                            assert(arts[j as int].category@ == cat);
                            assert(lines.deep_view() =~= before_art + seq![
                                toc_article_line(arts[j as int], file),
                            ]);
                            let awcj = articles_with_category(arts.subrange(0, j as int), cat);
                            assert(articles_with_category(arts.subrange(0, j + 1), cat)
                                =~= awcj.push(arts[j as int]));
                            assert(awcj.push(arts[j as int]).drop_last() =~= awcj);
                            assert(toc_article_lines(awcj.push(arts[j as int]), file)
                                =~= toc_article_lines(awcj, file).push(toc_article_line(
                                arts[j as int],
                                file,
                            )));
                            assert(lines.deep_view() =~= before_cat + seq![
                                toc_category_line(cat, file),
                            ] + toc_article_lines(
                                articles_with_category(arts.subrange(0, j + 1), cat),
                                file,
                            ));
                        }
                    } else {
                        proof {
                            assert(arts[j as int].category@ != cat);
                            assert(articles_with_category(arts.subrange(0, j + 1), cat)
                                =~= articles_with_category(arts.subrange(0, j as int), cat));
                        }
                    }
                    j = j + 1;
                }
                proof {
                    assert(arts.subrange(0, na as int) =~= arts);
                    assert(catsv.subrange(0, ci + 1).drop_last() =~= catsv.subrange(0, ci as int));
                    assert(catsv.subrange(0, ci + 1).last() == cat);
                    assert(lines.deep_view() =~= based + toc_sections(
                        arts,
                        catsv.subrange(0, ci + 1),
                        file,
                    ));
                }
                ci = ci + 1;
            }
            proof {
                assert(catsv.subrange(0, nc as int) =~= catsv);
                assert(lines.deep_view() =~= base + toc_block(arts, front_page.time_of_day@, file));
            }
            lines
        },
    }
}


// ---- laws ----

proof fn lemma_core_shape(tod: Seq<char>, file: Seq<char>)
    ensures
        edition_link_core(tod, file).len() >= 8,
        edition_link_core(tod, file)[0] == '-',
        edition_link_core(tod, file)[1] == ' ',
        edition_link_core(tod, file)[edition_link_core(tod, file).len() - 1] == ')',
{
    reveal_strlit("- [");
    reveal_strlit("](./");
    reveal_strlit(")");
    let c = edition_link_core(tod, file);
    assert(c[0] == "- ["@[0]);
    assert(c[1] == "- ["@[1]);
    assert(c[c.len() - 1] == ")"@[0]);
}

proof fn lemma_daily_entry_facts(tod: Seq<char>, file: Seq<char>)
    ensures
        trim_spec(daily_edition_entry(tod, file)) == edition_link_core(tod, file),
        seq_starts_with(daily_edition_entry(tod, file), "    - "@),
{
    reveal_strlit("    ");
    reveal_strlit("    - ");
    lemma_core_shape(tod, file);
    let pre = "    "@;
    let core = edition_link_core(tod, file);
    let ee = daily_edition_entry(tod, file);
    assert forall|i: int| 0 <= i < pre.len() implies crate::utils::is_blank_char(pre[i]) by {
        assert(pre.len() == 4);
    }
    crate::utils::lemma_trim_indent(pre, core);
    assert(ee == pre + core);
    let p = "    - "@;
    assert forall|i: int| 0 <= i < p.len() implies ee[i] == p[i] by {
        if i < 4 {
            assert(ee[i] == pre[i]);
        } else {
            assert(ee[i] == core[i - 4]);
        }
    }
    assert(seq_starts_with(ee, p));
}

proof fn lemma_daily_heading_facts(date: Seq<char>)
    ensures
        trim_spec(daily_date_heading(date)) == daily_date_heading(date),
        daily_date_heading(date)[0] == '-',
        daily_date_heading(date).len() >= 15,
{
    reveal_strlit("- [**");
    reveal_strlit("**](./");
    reveal_strlit(".md)");
    let dh = daily_date_heading(date);
    assert(dh[0] == "- [**"@[0]);
    assert(dh[dh.len() - 1] == ".md)"@[3]);
    crate::utils::lemma_trim_noop(dh);
}

/// The document that one merge into an absent chronological index yields.
proof fn lemma_daily_first_merge(date: Seq<char>, tod: Seq<char>, file: Seq<char>)
    ensures
        merge_daily_spec(None, date, tod, file) == seq![
            "# Awful News Index"@,
            ""@,
            daily_date_heading(date),
            daily_edition_entry(tod, file),
            ""@,
        ],
{
    reveal_strlit("# Awful News Index");
    reveal_strlit("");
    let h = "# Awful News Index"@;
    let e = ""@;
    let dh = daily_date_heading(date);
    let ee = daily_edition_entry(tod, file);
    lemma_daily_heading_facts(date);
    crate::utils::lemma_trim_noop(h);
    assert(e =~= Seq::<char>::empty());
    crate::utils::lemma_trim_empty();
    let l0 = daily_seed(None);
    assert(l0 == seq![h, e]);
    assert(h[0] != dh[0]);
    assert(trim_spec(l0[0]) != trim_spec(dh));
    assert(trim_spec(l0[1]) != trim_spec(dh));
    assert(find_trim_eq_from(l0, dh, 0) == find_trim_eq_from(l0, dh, 1));
    assert(find_trim_eq_from(l0, dh, 1) == find_trim_eq_from(l0, dh, 2));
    assert(find_trim_eq_from(l0, dh, 2) == -1);
    assert(seq_starts_with(l0[0], h));
    assert(find_starts_with_from(l0, h, 0) == 0);
    let a1 = l0.insert(1, e);
    assert(a1 =~= seq![h, e, e]);
    let a2 = a1.insert(2, dh);
    assert(a2 =~= seq![h, e, dh, e]);
    assert(a2.insert(3, ee) =~= seq![h, e, dh, ee, e]);
    assert(merge_daily_spec(None, date, tod, file) == l0.insert(1, e).insert(2, dh).insert(
        3,
        ee,
    ));
}

/// Index idempotence: merging one date and time slot into an absent
/// chronological index, then merging the same pair again, yields the same
/// document as merging once.
pub proof fn lemma_daily_index_idempotent(date: Seq<char>, tod: Seq<char>, file: Seq<char>)
    ensures
        merge_daily_spec(Some(merge_daily_spec(None, date, tod, file)), date, tod, file)
            == merge_daily_spec(None, date, tod, file),
{
    reveal_strlit("# Awful News Index");
    reveal_strlit("");
    reveal_strlit("    - ");
    let h = "# Awful News Index"@;
    let e = ""@;
    let dh = daily_date_heading(date);
    let ee = daily_edition_entry(tod, file);
    lemma_daily_first_merge(date, tod, file);
    lemma_daily_heading_facts(date);
    lemma_daily_entry_facts(tod, file);
    crate::utils::lemma_trim_noop(h);
    assert(e =~= Seq::<char>::empty());
    crate::utils::lemma_trim_empty();
    let m1 = merge_daily_spec(None, date, tod, file);
    let m1s = seq![h, e, dh, ee, e];
    assert(m1 == m1s);
    assert(daily_seed(Some(m1)) == m1s);
    assert(h[0] != dh[0]);
    assert(trim_spec(m1s[0]) != trim_spec(dh));
    assert(trim_spec(m1s[1]) != trim_spec(dh));
    assert(trim_spec(m1s[2]) == trim_spec(dh));
    assert(find_trim_eq_from(m1s, dh, 0) == find_trim_eq_from(m1s, dh, 1));
    assert(find_trim_eq_from(m1s, dh, 1) == find_trim_eq_from(m1s, dh, 2));
    assert(find_trim_eq_from(m1s, dh, 2) == 2);
    let p = "    - "@;
    assert(seq_starts_with(m1s[3], p));
    assert(!seq_starts_with(m1s[4], p));
    assert(block_end_from(m1s, p, 3) == block_end_from(m1s, p, 4));
    assert(block_end_from(m1s, p, 4) == 4);
    assert(block_has_trim(m1s, 3, 4, ee)) by {
        assert(trim_spec(m1s[3]) == trim_spec(ee));
    }
    assert(merge_daily_spec(Some(m1), date, tod, file) == m1s);
}

/// Index date-grouping: merging two editions of the same date whose
/// rendered entries differ - as a morning and an evening edition do -
/// produces one date heading with both entry lines nested beneath it.
pub proof fn lemma_daily_index_date_grouping(
    date: Seq<char>,
    tod1: Seq<char>,
    f1: Seq<char>,
    tod2: Seq<char>,
    f2: Seq<char>,
)
    requires
        edition_link_core(tod1, f1) != edition_link_core(tod2, f2),
    ensures
        merge_daily_spec(Some(merge_daily_spec(None, date, tod1, f1)), date, tod2, f2) == seq![
            "# Awful News Index"@,
            ""@,
            daily_date_heading(date),
            daily_edition_entry(tod1, f1),
            daily_edition_entry(tod2, f2),
            ""@,
        ],
{
    reveal_strlit("# Awful News Index");
    reveal_strlit("");
    reveal_strlit("    - ");
    let h = "# Awful News Index"@;
    let e = ""@;
    let dh = daily_date_heading(date);
    let ee1 = daily_edition_entry(tod1, f1);
    let ee2 = daily_edition_entry(tod2, f2);
    lemma_daily_first_merge(date, tod1, f1);
    lemma_daily_heading_facts(date);
    lemma_daily_entry_facts(tod1, f1);
    lemma_daily_entry_facts(tod2, f2);
    crate::utils::lemma_trim_noop(h);
    assert(e =~= Seq::<char>::empty());
    crate::utils::lemma_trim_empty();
    let m1 = merge_daily_spec(None, date, tod1, f1);
    let m1s = seq![h, e, dh, ee1, e];
    assert(m1 == m1s);
    assert(daily_seed(Some(m1)) == m1s);
    assert(h[0] != dh[0]);
    assert(trim_spec(m1s[0]) != trim_spec(dh));
    assert(trim_spec(m1s[1]) != trim_spec(dh));
    assert(trim_spec(m1s[2]) == trim_spec(dh));
    assert(find_trim_eq_from(m1s, dh, 0) == find_trim_eq_from(m1s, dh, 1));
    assert(find_trim_eq_from(m1s, dh, 1) == find_trim_eq_from(m1s, dh, 2));
    assert(find_trim_eq_from(m1s, dh, 2) == 2);
    let p = "    - "@;
    assert(seq_starts_with(m1s[3], p));
    assert(!seq_starts_with(m1s[4], p));
    assert(block_end_from(m1s, p, 3) == block_end_from(m1s, p, 4));
    assert(block_end_from(m1s, p, 4) == 4);
    assert(!block_has_trim(m1s, 3, 4, ee2)) by {
        if block_has_trim(m1s, 3, 4, ee2) {
            let j = choose|j: int| 3 <= j < 4 && trim_spec(#[trigger] m1s[j]) == trim_spec(ee2);
            assert(j == 3);
            assert(trim_spec(m1s[3]) == edition_link_core(tod1, f1));
        }
    }
    assert(merge_daily_spec(Some(m1), date, tod2, f2) == m1s.insert(4, ee2));
    assert(m1s.insert(4, ee2) =~= seq![h, e, dh, ee1, ee2, e]);
}

/// Re-merging the same edition into its date TOC leaves the document
/// unchanged: the edition link is found and nothing is appended again.
pub proof fn lemma_date_toc_idempotent(fp: FrontPage, file: Seq<char>)
    ensures
        merge_date_toc_spec(Some(merge_date_toc_spec(None, fp, file)), fp, file)
            == merge_date_toc_spec(None, fp, file),
{
    reveal_strlit("# Editions published on ");
    reveal_strlit("");
    let e = ""@;
    let header = toc_header(fp.local_date@);
    let link = edition_link_core(fp.time_of_day@, file);
    lemma_core_shape(fp.time_of_day@, file);
    crate::utils::lemma_trim_noop(link);
    assert(e =~= Seq::<char>::empty());
    crate::utils::lemma_trim_empty();
    assert(header[0] == "# Editions published on "@[0]);
    assert(!crate::utils::is_blank_char(header[0]));
    crate::utils::lemma_lead_blanks_bounds(header);
    crate::utils::lemma_tail_blanks_bounds(header);
    assert(crate::utils::lead_blanks(header) == 0);
    assert(crate::utils::tail_blanks(header) < header.len());
    assert(trim_spec(header).len() > 0 && trim_spec(header)[0] == header[0]);
    assert(trim_spec(header) != trim_spec(link));
    assert(trim_spec(e) != trim_spec(link));
    let l0 = seq![header, e];
    assert(find_trim_eq_from(l0, link, 0) == find_trim_eq_from(l0, link, 1));
    assert(find_trim_eq_from(l0, link, 1) == find_trim_eq_from(l0, link, 2));
    assert(find_trim_eq_from(l0, link, 2) == -1);
    let m1 = merge_date_toc_spec(None, fp, file);
    assert(m1 == l0 + toc_block(fp.articles@, fp.time_of_day@, file));
    assert(m1[0] == header);
    assert(m1[1] == e);
    assert(m1[2] == link);
    assert(trim_spec(m1[0]) != trim_spec(link));
    assert(trim_spec(m1[1]) != trim_spec(link));
    assert(trim_spec(m1[2]) == trim_spec(link));
    assert(find_trim_eq_from(m1, link, 0) == find_trim_eq_from(m1, link, 1));
    assert(find_trim_eq_from(m1, link, 1) == find_trim_eq_from(m1, link, 2));
    assert(find_trim_eq_from(m1, link, 2) == 2);
    assert(merge_date_toc_spec(Some(m1), fp, file) == m1);
}


/// The heading of the navigation manifest without its indentation.
pub open spec fn summary_heading_core(date: Seq<char>) -> Seq<char> {
    "- ["@ + date + "](./"@ + date + ".md)"@
}

proof fn lemma_summary_heading_facts(date: Seq<char>)
    ensures
        trim_spec(summary_date_heading(date)) == summary_heading_core(date),
        summary_heading_core(date)[0] == '-',
        summary_heading_core(date).len() >= 11,
        date.len() > 0 ==> summary_heading_core(date)[3] == date[0],
{
    reveal_strlit("    - [");
    reveal_strlit("    ");
    reveal_strlit("- [");
    reveal_strlit("](./");
    reveal_strlit(".md)");
    let pre = "    "@;
    let core = summary_heading_core(date);
    assert(core[0] == "- ["@[0]);
    assert(core[core.len() - 1] == ".md)"@[3]);
    assert(summary_date_heading(date) =~= pre + core);
    assert forall|i: int| 0 <= i < pre.len() implies crate::utils::is_blank_char(pre[i]) by {
        assert(pre.len() == 4);
    }
    crate::utils::lemma_trim_indent(pre, core);
    if date.len() > 0 {
        assert(core[3] == date[0]);
    }
}

proof fn lemma_summary_entry_facts(tod: Seq<char>, file: Seq<char>)
    ensures
        trim_spec(summary_edition_entry(tod, file)) == edition_link_core(tod, file),
        seq_starts_with(summary_edition_entry(tod, file), "        - "@),
{
    reveal_strlit("        ");
    reveal_strlit("        - ");
    lemma_core_shape(tod, file);
    let pre = "        "@;
    let core = edition_link_core(tod, file);
    let ee = summary_edition_entry(tod, file);
    assert forall|i: int| 0 <= i < pre.len() implies crate::utils::is_blank_char(pre[i]) by {
        assert(pre.len() == 8);
    }
    crate::utils::lemma_trim_indent(pre, core);
    assert(ee == pre + core);
    let p = "        - "@;
    assert forall|i: int| 0 <= i < p.len() implies ee[i] == p[i] by {
        if i < 8 {
            assert(ee[i] == pre[i]);
        } else {
            assert(ee[i] == core[i - 8]);
        }
    }
    assert(seq_starts_with(ee, p));
}

/// The trimmed skeleton lines all differ from a digit-led date heading.
proof fn lemma_summary_seed_trims(date: Seq<char>)
    requires
        date.len() > 0,
        '0' as u32 <= date[0] as u32 && date[0] as u32 <= '9' as u32,
    ensures
        forall|i: int|
            0 <= i < 6 ==> trim_spec(#[trigger] summary_seed(None)[i]) != trim_spec(
                summary_date_heading(date),
            ),
{
    reveal_strlit("# Summary");
    reveal_strlit("");
    reveal_strlit("[Home](./home.md)");
    reveal_strlit("- [PGP](./pgp.md)");
    reveal_strlit("- [Contact](./contact.md)");
    reveal_strlit("- [Daily News](./daily_news.md)");
    let l = summary_seed(None);
    let dh = summary_date_heading(date);
    let core = summary_heading_core(date);
    lemma_summary_heading_facts(date);
    crate::utils::lemma_trim_empty();
    assert(""@ =~= Seq::<char>::empty());
    crate::utils::lemma_trim_noop("# Summary"@);
    crate::utils::lemma_trim_noop("[Home](./home.md)"@);
    crate::utils::lemma_trim_noop("- [PGP](./pgp.md)"@);
    crate::utils::lemma_trim_noop("- [Contact](./contact.md)"@);
    crate::utils::lemma_trim_noop("- [Daily News](./daily_news.md)"@);
    assert(trim_spec(l[0]) != trim_spec(dh));
    assert(trim_spec(l[1]) != trim_spec(dh));
    assert(trim_spec(l[2]) != trim_spec(dh));
    assert(trim_spec(l[3]) != trim_spec(dh)) by {
        if "- [PGP](./pgp.md)"@ == core {
            assert("- [PGP](./pgp.md)"@[3] == core[3]);
        }
    }
    assert(trim_spec(l[4]) != trim_spec(dh)) by {
        if "- [Contact](./contact.md)"@ == core {
            assert("- [Contact](./contact.md)"@[3] == core[3]);
        }
    }
    assert(trim_spec(l[5]) != trim_spec(dh)) by {
        if "- [Daily News](./daily_news.md)"@ == core {
            assert("- [Daily News](./daily_news.md)"@[3] == core[3]);
        }
    }
    assert forall|i: int|
        0 <= i < 6 implies trim_spec(#[trigger] summary_seed(None)[i]) != trim_spec(
        summary_date_heading(date),
    ) by {
        assert(trim_spec(l[i]) != trim_spec(dh));
    }
}

/// In the fresh manifest skeleton, a date heading for a date that starts
/// with a digit matches no line, and the anchor line is line five.
proof fn lemma_summary_seed_facts(date: Seq<char>)
    requires
        date.len() > 0,
        '0' as u32 <= date[0] as u32 && date[0] as u32 <= '9' as u32,
    ensures
        find_trim_eq_from(summary_seed(None), summary_date_heading(date), 0) == -1,
        find_contains_from(summary_seed(None), "- [Daily News]"@, 0) == 5,
{
    reveal_strlit("# Summary");
    reveal_strlit("");
    reveal_strlit("[Home](./home.md)");
    reveal_strlit("- [PGP](./pgp.md)");
    reveal_strlit("- [Contact](./contact.md)");
    reveal_strlit("- [Daily News](./daily_news.md)");
    reveal_strlit("- [Daily News]");
    let l = summary_seed(None);
    let dh = summary_date_heading(date);
    lemma_summary_seed_trims(date);
    assert(trim_spec(l[0]) != trim_spec(dh));
    assert(trim_spec(l[1]) != trim_spec(dh));
    assert(trim_spec(l[2]) != trim_spec(dh));
    assert(trim_spec(l[3]) != trim_spec(dh));
    assert(trim_spec(l[4]) != trim_spec(dh));
    assert(trim_spec(l[5]) != trim_spec(dh));
    assert(find_trim_eq_from(l, dh, 0) == find_trim_eq_from(l, dh, 1));
    assert(find_trim_eq_from(l, dh, 1) == find_trim_eq_from(l, dh, 2));
    assert(find_trim_eq_from(l, dh, 2) == find_trim_eq_from(l, dh, 3));
    assert(find_trim_eq_from(l, dh, 3) == find_trim_eq_from(l, dh, 4));
    assert(find_trim_eq_from(l, dh, 4) == find_trim_eq_from(l, dh, 5));
    assert(find_trim_eq_from(l, dh, 5) == find_trim_eq_from(l, dh, 6));
    assert(find_trim_eq_from(l, dh, 6) == -1);
    let p = "- [Daily News]"@;
    assert(p.len() == 14);
    assert(!seq_contains_sub(l[0], p)) by {
        if seq_contains_sub(l[0], p) {
            let k = choose|k: int| crate::utils::matches_at(l[0], p, k);
        }
    }
    assert(!seq_contains_sub(l[1], p)) by {
        if seq_contains_sub(l[1], p) {
            let k = choose|k: int| crate::utils::matches_at(l[1], p, k);
        }
    }
    assert(!seq_contains_sub(l[2], p)) by {
        if seq_contains_sub(l[2], p) {
            let k = choose|k: int| crate::utils::matches_at(l[2], p, k);
            assert(l[2][k + 0] == p[0]);
            assert(false);
        }
    }
    assert(!seq_contains_sub(l[3], p)) by {
        if seq_contains_sub(l[3], p) {
            let k = choose|k: int| crate::utils::matches_at(l[3], p, k);
            assert(l[3][k + 0] == p[0]);
            assert(l[3][k + 3] == p[3]);
            assert(false);
        }
    }
    assert(!seq_contains_sub(l[4], p)) by {
        if seq_contains_sub(l[4], p) {
            let k = choose|k: int| crate::utils::matches_at(l[4], p, k);
            assert(l[4][k + 0] == p[0]);
            assert(l[4][k + 3] == p[3]);
            assert(false);
        }
    }
    assert(seq_contains_sub(l[5], p)) by {
        assert(crate::utils::matches_at(l[5], p, 0)) by {
            assert forall|i: int| 0 <= i < p.len() implies l[5][i] == p[i] by {
                assert(p.len() == 14);
            }
        }
    }
    assert(find_contains_from(l, p, 0) == find_contains_from(l, p, 1));
    assert(find_contains_from(l, p, 1) == find_contains_from(l, p, 2));
    assert(find_contains_from(l, p, 2) == find_contains_from(l, p, 3));
    assert(find_contains_from(l, p, 3) == find_contains_from(l, p, 4));
    assert(find_contains_from(l, p, 4) == find_contains_from(l, p, 5));
    assert(find_contains_from(l, p, 5) == 5);
}

/// The document that one merge into an absent navigation manifest yields,
/// for a date that starts with a digit.
proof fn lemma_summary_first_merge(date: Seq<char>, tod: Seq<char>, file: Seq<char>)
    requires
        date.len() > 0,
        '0' as u32 <= date[0] as u32 && date[0] as u32 <= '9' as u32,
    ensures
        merge_summary_spec(None, date, tod, file) == summary_seed(None).insert(
            6,
            summary_date_heading(date),
        ).insert(7, summary_edition_entry(tod, file)),
{
    lemma_summary_seed_facts(date);
}


/// Manifest idempotence: merging one date and time slot into an absent
/// navigation manifest, then merging the same pair again, yields the same
/// document as merging once.  Dates are of the digit-led `YYYY-MM-DD`
/// shape.
pub proof fn lemma_summary_idempotent(date: Seq<char>, tod: Seq<char>, file: Seq<char>)
    requires
        date.len() > 0,
        '0' as u32 <= date[0] as u32 && date[0] as u32 <= '9' as u32,
    ensures
        merge_summary_spec(Some(merge_summary_spec(None, date, tod, file)), date, tod, file)
            == merge_summary_spec(None, date, tod, file),
{
    reveal_strlit("        - ");
    reveal_strlit("# Summary");
    reveal_strlit("");
    reveal_strlit("[Home](./home.md)");
    reveal_strlit("- [PGP](./pgp.md)");
    reveal_strlit("- [Contact](./contact.md)");
    reveal_strlit("- [Daily News](./daily_news.md)");
    let dh = summary_date_heading(date);
    let ee = summary_edition_entry(tod, file);
    let l = summary_seed(None);
    lemma_summary_seed_trims(date);
    lemma_summary_first_merge(date, tod, file);
    lemma_summary_seed_facts(date);
    lemma_summary_heading_facts(date);
    lemma_summary_entry_facts(tod, file);
    let m1 = merge_summary_spec(None, date, tod, file);
    let m1s = seq![l[0], l[1], l[2], l[3], l[4], l[5], dh, ee];
    assert(m1 == l.insert(6, dh).insert(7, ee));
    assert(m1 =~= m1s);
    assert(daily_seed(Some(m1)) == m1);
    assert forall|i: int| 0 <= i < 6 implies trim_spec(m1s[i]) == trim_spec(l[i]) by {}
    assert(trim_spec(m1s[0]) != trim_spec(dh));
    assert(trim_spec(m1s[1]) != trim_spec(dh));
    assert(trim_spec(m1s[2]) != trim_spec(dh));
    assert(trim_spec(m1s[3]) != trim_spec(dh));
    assert(trim_spec(m1s[4]) != trim_spec(dh));
    assert(trim_spec(m1s[5]) != trim_spec(dh));
    assert(trim_spec(m1s[6]) == trim_spec(dh));
    assert(find_trim_eq_from(m1s, dh, 0) == find_trim_eq_from(m1s, dh, 1));
    assert(find_trim_eq_from(m1s, dh, 1) == find_trim_eq_from(m1s, dh, 2));
    assert(find_trim_eq_from(m1s, dh, 2) == find_trim_eq_from(m1s, dh, 3));
    assert(find_trim_eq_from(m1s, dh, 3) == find_trim_eq_from(m1s, dh, 4));
    assert(find_trim_eq_from(m1s, dh, 4) == find_trim_eq_from(m1s, dh, 5));
    assert(find_trim_eq_from(m1s, dh, 5) == find_trim_eq_from(m1s, dh, 6));
    assert(find_trim_eq_from(m1s, dh, 6) == 6);
    let p = "        - "@;
    assert(seq_starts_with(m1s[7], p));
    assert(block_end_from(m1s, p, 7) == block_end_from(m1s, p, 8));
    assert(block_end_from(m1s, p, 8) == 8);
    assert(block_has_trim(m1s, 7, 8, ee)) by {
        assert(trim_spec(m1s[7]) == trim_spec(ee));
    }
    assert(merge_summary_spec(Some(m1), date, tod, file) == m1);
}

/// Manifest date-grouping: merging two editions of the same digit-led date
/// whose rendered entries differ produces one date heading with both entry
/// lines nested beneath it.
pub proof fn lemma_summary_date_grouping(
    date: Seq<char>,
    tod1: Seq<char>,
    f1: Seq<char>,
    tod2: Seq<char>,
    f2: Seq<char>,
)
    requires
        date.len() > 0,
        '0' as u32 <= date[0] as u32 && date[0] as u32 <= '9' as u32,
        edition_link_core(tod1, f1) != edition_link_core(tod2, f2),
    ensures
        merge_summary_spec(Some(merge_summary_spec(None, date, tod1, f1)), date, tod2, f2)
            == summary_seed(None).insert(6, summary_date_heading(date)).insert(
            7,
            summary_edition_entry(tod1, f1),
        ).insert(8, summary_edition_entry(tod2, f2)),
{
    reveal_strlit("        - ");
    let dh = summary_date_heading(date);
    let ee1 = summary_edition_entry(tod1, f1);
    let ee2 = summary_edition_entry(tod2, f2);
    let l = summary_seed(None);
    lemma_summary_seed_trims(date);
    lemma_summary_first_merge(date, tod1, f1);
    lemma_summary_seed_facts(date);
    lemma_summary_heading_facts(date);
    lemma_summary_entry_facts(tod1, f1);
    lemma_summary_entry_facts(tod2, f2);
    let m1 = merge_summary_spec(None, date, tod1, f1);
    let m1s = seq![l[0], l[1], l[2], l[3], l[4], l[5], dh, ee1];
    assert(m1 == l.insert(6, dh).insert(7, ee1));
    assert(m1 =~= m1s);
    assert(trim_spec(m1s[0]) != trim_spec(dh));
    assert(trim_spec(m1s[1]) != trim_spec(dh));
    assert(trim_spec(m1s[2]) != trim_spec(dh));
    assert(trim_spec(m1s[3]) != trim_spec(dh));
    assert(trim_spec(m1s[4]) != trim_spec(dh));
    assert(trim_spec(m1s[5]) != trim_spec(dh));
    assert(trim_spec(m1s[6]) == trim_spec(dh));
    assert(find_trim_eq_from(m1s, dh, 0) == find_trim_eq_from(m1s, dh, 1));
    assert(find_trim_eq_from(m1s, dh, 1) == find_trim_eq_from(m1s, dh, 2));
    assert(find_trim_eq_from(m1s, dh, 2) == find_trim_eq_from(m1s, dh, 3));
    assert(find_trim_eq_from(m1s, dh, 3) == find_trim_eq_from(m1s, dh, 4));
    assert(find_trim_eq_from(m1s, dh, 4) == find_trim_eq_from(m1s, dh, 5));
    assert(find_trim_eq_from(m1s, dh, 5) == find_trim_eq_from(m1s, dh, 6));
    assert(find_trim_eq_from(m1s, dh, 6) == 6);
    let p = "        - "@;
    assert(seq_starts_with(m1s[7], p));
    assert(block_end_from(m1s, p, 7) == block_end_from(m1s, p, 8));
    assert(block_end_from(m1s, p, 8) == 8);
    assert(!block_has_trim(m1s, 7, 8, ee2)) by {
        if block_has_trim(m1s, 7, 8, ee2) {
            let j = choose|j: int| 7 <= j < 8 && trim_spec(#[trigger] m1s[j]) == trim_spec(ee2);
            assert(j == 7);
            assert(trim_spec(m1s[7]) == edition_link_core(tod1, f1));
        }
    }
    assert(merge_summary_spec(Some(m1), date, tod2, f2) == m1s.insert(8, ee2));
    assert(m1s.insert(8, ee2) =~= l.insert(6, dh).insert(7, ee1).insert(8, ee2));
}


/// A merge into a chronological index that already holds the date heading
/// but not the edition entry gains exactly the entry, at the end of the
/// heading's block; every pre-existing line keeps its content and order.
pub proof fn lemma_daily_merge_adds_entry_only(
    lines: Seq<Seq<char>>,
    date: Seq<char>,
    tod: Seq<char>,
    file: Seq<char>,
)
    requires
        find_trim_eq_from(lines, daily_date_heading(date), 0) >= 0,
        !block_has_trim(
            lines,
            find_trim_eq_from(lines, daily_date_heading(date), 0) + 1,
            block_end_from(
                lines,
                "    - "@,
                find_trim_eq_from(lines, daily_date_heading(date), 0) + 1,
            ),
            daily_edition_entry(tod, file),
        ),
    ensures
        ({
            let m = merge_daily_spec(Some(lines), date, tod, file);
            let be = block_end_from(
                lines,
                "    - "@,
                find_trim_eq_from(lines, daily_date_heading(date), 0) + 1,
            );
            &&& m.len() == lines.len() + 1
            &&& m[be] == daily_edition_entry(tod, file)
            &&& forall|i: int| 0 <= i < be ==> m[i] == lines[i]
            &&& forall|i: int| be <= i < lines.len() ==> m[i + 1] == lines[i]
        }),
{
    let hi = find_trim_eq_from(lines, daily_date_heading(date), 0);
    lemma_find_trim_eq_bounds(lines, daily_date_heading(date), 0);
    let be = block_end_from(lines, "    - "@, hi + 1);
    lemma_block_end_bounds(lines, "    - "@, hi + 1);
    lines.insert_ensures(be, daily_edition_entry(tod, file));
}

/// A merge into a chronological index without the date heading, whose
/// fixed header line is present, gains exactly a blank line, the date
/// heading and the edition entry right below the header; every
/// pre-existing line keeps its content and order.
pub proof fn lemma_daily_merge_adds_heading_and_entry(
    lines: Seq<Seq<char>>,
    date: Seq<char>,
    tod: Seq<char>,
    file: Seq<char>,
)
    requires
        find_trim_eq_from(lines, daily_date_heading(date), 0) == -1,
        find_starts_with_from(lines, "# Awful News Index"@, 0) >= 0,
    ensures
        ({
            let m = merge_daily_spec(Some(lines), date, tod, file);
            let hp = find_starts_with_from(lines, "# Awful News Index"@, 0);
            &&& m.len() == lines.len() + 3
            &&& m[hp + 1] == ""@
            &&& m[hp + 2] == daily_date_heading(date)
            &&& m[hp + 3] == daily_edition_entry(tod, file)
            &&& forall|i: int| 0 <= i <= hp ==> m[i] == lines[i]
            &&& forall|i: int| hp < i < lines.len() ==> m[i + 3] == lines[i]
        }),
{
    let hp = find_starts_with_from(lines, "# Awful News Index"@, 0);
    lemma_find_starts_with_bounds(lines, "# Awful News Index"@, 0);
    let a1 = lines.insert(hp + 1, ""@);
    let a2 = a1.insert(hp + 2, daily_date_heading(date));
    let m = a2.insert(hp + 3, daily_edition_entry(tod, file));
    lines.insert_ensures(hp + 1, ""@);
    a1.insert_ensures(hp + 2, daily_date_heading(date));
    a2.insert_ensures(hp + 3, daily_edition_entry(tod, file));
}

/// A merge into a navigation manifest that already holds the date heading
/// but not the edition entry gains exactly the entry, at the end of the
/// heading's block; every pre-existing line keeps its content and order.
pub proof fn lemma_summary_merge_adds_entry_only(
    lines: Seq<Seq<char>>,
    date: Seq<char>,
    tod: Seq<char>,
    file: Seq<char>,
)
    requires
        find_trim_eq_from(lines, summary_date_heading(date), 0) >= 0,
        !block_has_trim(
            lines,
            find_trim_eq_from(lines, summary_date_heading(date), 0) + 1,
            block_end_from(
                lines,
                "        - "@,
                find_trim_eq_from(lines, summary_date_heading(date), 0) + 1,
            ),
            summary_edition_entry(tod, file),
        ),
    ensures
        ({
            let m = merge_summary_spec(Some(lines), date, tod, file);
            let be = block_end_from(
                lines,
                "        - "@,
                find_trim_eq_from(lines, summary_date_heading(date), 0) + 1,
            );
            &&& m.len() == lines.len() + 1
            &&& m[be] == summary_edition_entry(tod, file)
            &&& forall|i: int| 0 <= i < be ==> m[i] == lines[i]
            &&& forall|i: int| be <= i < lines.len() ==> m[i + 1] == lines[i]
        }),
{
    let hi = find_trim_eq_from(lines, summary_date_heading(date), 0);
    lemma_find_trim_eq_bounds(lines, summary_date_heading(date), 0);
    let be = block_end_from(lines, "        - "@, hi + 1);
    lemma_block_end_bounds(lines, "        - "@, hi + 1);
    lines.insert_ensures(be, summary_edition_entry(tod, file));
}

/// A merge into a navigation manifest without the date heading, whose
/// anchor line is present, gains exactly the date heading and the edition
/// entry right below the first anchor line; every pre-existing line keeps
/// its content and order.  Without an anchor line the manifest is left
/// unchanged.
pub proof fn lemma_summary_merge_adds_heading_and_entry(
    lines: Seq<Seq<char>>,
    date: Seq<char>,
    tod: Seq<char>,
    file: Seq<char>,
)
    requires
        find_trim_eq_from(lines, summary_date_heading(date), 0) == -1,
        find_contains_from(lines, "- [Daily News]"@, 0) >= 0,
    ensures
        ({
            let m = merge_summary_spec(Some(lines), date, tod, file);
            let hp = find_contains_from(lines, "- [Daily News]"@, 0);
            &&& m.len() == lines.len() + 2
            &&& m[hp + 1] == summary_date_heading(date)
            &&& m[hp + 2] == summary_edition_entry(tod, file)
            &&& forall|i: int| 0 <= i <= hp ==> m[i] == lines[i]
            &&& forall|i: int| hp < i < lines.len() ==> m[i + 2] == lines[i]
        }),
{
    let hp = find_contains_from(lines, "- [Daily News]"@, 0);
    lemma_find_contains_bounds(lines, "- [Daily News]"@, 0);
    let a1 = lines.insert(hp + 1, summary_date_heading(date));
    lines.insert_ensures(hp + 1, summary_date_heading(date));
    a1.insert_ensures(hp + 2, summary_edition_entry(tod, file));
}

} // verus!
