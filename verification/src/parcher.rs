//! The assembler front-end over source text. It splits a source file into
//! lines, drops blank lines, resolves `#include` directives with a
//! basename-keyed include guard, and assembles the collected lines with
//! the two-pass core.
//!
//! Reading files is the caller's business: `loadSource` returns the
//! include paths to read, in directive order, each at most once, and
//! `addInclude` appends the non-blank lines of one included file. Included
//! lines are themselves never scanned for further directives.
use vstd::prelude::*;
use vstd::string::*;
use crate::assemble::{
    count_instructions, spec_compile, spec_pass1, ByteCodeCompiler, LabelBinding,
};
use crate::codec::Line;
use crate::errors::AsmError;
use crate::ir::{
    classify_line, parchLine, IntermediateLanguage, IntermediateLanguageLine, IrLine, LineClass,
};
use crate::text::{
    drop_back_while, drop_front_while, is_space, is_space_char, lemma_drop_back_while,
    lemma_drop_front_while, lemma_take_back_while, lemma_take_front_while, split_char_spec,
    split_str, str_eq, take_back_while, take_front_while, trim_spec, trim_str,
};

verus! {

/// A line that the blank-line filter drops.
pub open spec fn is_blank_line(l: Seq<char>) -> bool {
    trim_spec(l).len() == 0
}

/// The non-blank lines of a line sequence, in order.
pub open spec fn keep_nonblank(lines: Seq<Seq<char>>) -> Seq<Seq<char>>
    decreases lines.len(),
{
    if lines.len() == 0 {
        Seq::empty()
    } else {
        let pre = keep_nonblank(lines.drop_last());
        if is_blank_line(lines.last()) {
            pre
        } else {
            pre.push(lines.last())
        }
    }
}

/// The non-blank lines of a source text.
pub open spec fn nonblank_lines(content: Seq<char>) -> Seq<Seq<char>> {
    keep_nonblank(split_char_spec(content, '\n'))
}

/// What a preprocessor line says.
pub enum DirectiveClass {
    /// Not a `#` line at all.
    NotDirective,
    /// The `#/` comment directive.
    Comment,
    /// `#include` with its path operand.
    Include { path: Seq<char> },
    /// `#include` without a path; fatal.
    MissingPath,
    /// Any other directive name; fatal.
    Unknown,
}

/// The first whitespace-separated token of a trimmed line.
pub open spec fn first_token(t: Seq<char>) -> Seq<char> {
    take_front_while(t, |c: char| !is_space_char(c))
}

/// The second whitespace-separated token of a trimmed line, empty when the
/// line has only one token.
pub open spec fn second_token(t: Seq<char>) -> Seq<char> {
    let after0 = drop_front_while(t, |c: char| !is_space_char(c));
    let rest = drop_front_while(after0, |c: char| is_space_char(c));
    take_front_while(rest, |c: char| !is_space_char(c))
}

/// Classifies one line for the preprocessor. The directive name is the
/// first token with all of its leading `#` characters removed.
pub open spec fn classify_directive(l: Seq<char>) -> DirectiveClass {
    let t = trim_spec(l);
    if t.len() == 0 || t[0] != '#' {
        DirectiveClass::NotDirective
    } else {
        let name = drop_front_while(first_token(t), |c: char| c == '#');
        if name == "include"@ {
            let p = second_token(t);
            if p.len() == 0 {
                DirectiveClass::MissingPath
            } else {
                DirectiveClass::Include { path: p }
            }
        } else if name == "/"@ {
            DirectiveClass::Comment
        } else {
            DirectiveClass::Unknown
        }
    }
}

/// The basename of a path: what follows the last `/`, with trailing `/`
/// characters ignored.
pub open spec fn basename_spec(p: Seq<char>) -> Seq<char> {
    take_back_while(drop_back_while(p, |c: char| c == '/'), |c: char| c != '/')
}

/// The include scan over the lines of the primary file: the paths to read
/// in directive order, each basename at most once, and the grown visited
/// set; or the first fatal directive.
pub open spec fn scan_includes(lines: Seq<Seq<char>>, imports: Seq<Seq<char>>) -> Result<
    (Seq<Seq<char>>, Seq<Seq<char>>),
    AsmError,
>
    decreases lines.len(),
{
    if lines.len() == 0 {
        Ok((Seq::empty(), imports))
    } else {
        match scan_includes(lines.drop_last(), imports) {
            Err(e) => Err(e),
            Ok((paths, imp)) => match classify_directive(lines.last()) {
                DirectiveClass::NotDirective => Ok((paths, imp)),
                DirectiveClass::Comment => Ok((paths, imp)),
                DirectiveClass::Include { path } => {
                    let b = basename_spec(path);
                    if imp.contains(b) {
                        Ok((paths, imp))
                    } else {
                        Ok((paths.push(path), imp.push(b)))
                    }
                },
                DirectiveClass::MissingPath => Err(AsmError::MalformedInclude),
                DirectiveClass::Unknown => Err(AsmError::UnknownDirective),
            },
        }
    }
}

/// Once the scan fails on a prefix, the rest of the lines change nothing.
pub proof fn lemma_scan_extends_err(lines: Seq<Seq<char>>, imports: Seq<Seq<char>>, i: int)
    requires
        0 <= i <= lines.len(),
        scan_includes(lines.take(i), imports) is Err,
    ensures
        scan_includes(lines, imports) == scan_includes(lines.take(i), imports),
    decreases lines.len() - i,
{
    if i == lines.len() {
        assert(lines.take(i) =~= lines);
    } else {
        assert(lines.take(i + 1).drop_last() =~= lines.take(i));
        lemma_scan_extends_err(lines, imports, i + 1);
    }
}

/// The lines parsed into intermediate lines, skipping blank and comment
/// lines; the first unknown mnemonic decides the error.
pub open spec fn parse_lines_spec(lines: Seq<Seq<char>>) -> Result<Seq<IrLine>, AsmError>
    decreases lines.len(),
{
    if lines.len() == 0 {
        Ok(Seq::empty())
    } else {
        match parse_lines_spec(lines.drop_last()) {
            Err(e) => Err(e),
            Ok(pre) => match classify_line(lines.last()) {
                LineClass::Skip => Ok(pre),
                LineClass::BadMnemonic => Err(AsmError::UnknownMnemonic),
                LineClass::LabelDef { name } => Ok(pre.push(IrLine::Label { name })),
                LineClass::Instr { mnemonic, arg1, arg2 } => Ok(
                    pre.push(IrLine::Instr { mnemonic, arg1, arg2 }),
                ),
            },
        }
    }
}

/// Once parsing fails on a prefix, the rest of the lines change nothing.
pub proof fn lemma_parse_extends_err(lines: Seq<Seq<char>>, i: int)
    requires
        0 <= i <= lines.len(),
        parse_lines_spec(lines.take(i)) is Err,
    ensures
        parse_lines_spec(lines) == parse_lines_spec(lines.take(i)),
    decreases lines.len() - i,
{
    if i == lines.len() {
        assert(lines.take(i) =~= lines);
    } else {
        assert(lines.take(i + 1).drop_last() =~= lines.take(i));
        lemma_parse_extends_err(lines, i + 1);
    }
}

/// The assembly of a sequence of source lines: parse, then compile.
pub open spec fn spec_assemble_text(lines: Seq<Seq<char>>) -> Result<Seq<Line>, AsmError> {
    match parse_lines_spec(lines) {
        Err(e) => Err(e),
        Ok(ir) => spec_compile(ir),
    }
}

/// The assembler is a pure function of its source lines: the same lines
/// give the same program and so the same binary image, every time.
pub proof fn lemma_assembler_deterministic(a: Seq<Seq<char>>, b: Seq<Seq<char>>)
    requires
        a == b,
    ensures
        spec_assemble_text(a) == spec_assemble_text(b),
        spec_assemble_text(a) is Ok ==> crate::codec::spec_encode(spec_assemble_text(a).unwrap())
            == crate::codec::spec_encode(spec_assemble_text(b).unwrap()),
{
}

/// An exec mirror of `DirectiveClass`.
pub enum Directive {
    NotDirective,
    Comment,
    Include(String),
    MissingPath,
    Unknown,
}

/// Classifies one line for the preprocessor.
pub fn classify_directive_line(line: &str) -> (r: Directive)
    ensures
        match classify_directive(line@) {
            DirectiveClass::NotDirective => r is NotDirective,
            DirectiveClass::Comment => r is Comment,
            DirectiveClass::Include { path } => r matches Directive::Include(p) && p@ == path,
            DirectiveClass::MissingPath => r is MissingPath,
            DirectiveClass::Unknown => r is Unknown,
        },
{
    let t = trim_str(line);
    let n = t.unicode_len();
    if n == 0 || t.get_char(0) != '#' {
        return Directive::NotDirective;
    }
    // The first token and its directive name.
    let mut j: usize = 0;
    while j < n && !is_space(t.get_char(j))
        invariant
            j <= n,
            n == t@.len(),
            forall|x: int| 0 <= x < j ==> !is_space_char(t@[x]),
        decreases n - j,
    {
        j += 1;
    }
    proof {
        lemma_take_front_while(t@, |c: char| !is_space_char(c), j as int);
    }
    let mut h: usize = 0;
    while h < j && t.get_char(h) == '#'
        invariant
            h <= j <= n,
            n == t@.len(),
            forall|x: int| 0 <= x < h ==> t@[x] == '#',
        decreases j - h,
    {
        h += 1;
    }
    let name = t.substring_char(h, j);
    proof {
        let tok = t@.subrange(0, j as int);
        lemma_drop_front_while(tok, |c: char| c == '#', h as int);
        assert(tok.subrange(h as int, j as int) =~= t@.subrange(h as int, j as int));
    }
    if str_eq(name, "include") {
        // The second token is the path.
        let mut m: usize = j;
        while m < n && is_space(t.get_char(m))
            invariant
                j <= m <= n,
                n == t@.len(),
                forall|x: int| j <= x < m ==> is_space_char(t@[x]),
            decreases n - m,
        {
            m += 1;
        }
        let mut e: usize = m;
        while e < n && !is_space(t.get_char(e))
            invariant
                m <= e <= n,
                n == t@.len(),
                forall|x: int| m <= x < e ==> !is_space_char(t@[x]),
            decreases n - e,
        {
            e += 1;
        }
        proof {
            lemma_drop_front_while(t@, |c: char| !is_space_char(c), j as int);
            let after0 = t@.subrange(j as int, n as int);
            lemma_drop_front_while(after0, |c: char| is_space_char(c), m - j);
            assert(after0.subrange(m - j, n - j) =~= t@.subrange(m as int, n as int));
            let rest = t@.subrange(m as int, n as int);
            lemma_take_front_while(rest, |c: char| !is_space_char(c), e - m);
            assert(rest.subrange(0, e - m) =~= t@.subrange(m as int, e as int));
        }
        if m == e {
            return Directive::MissingPath;
        }
        return Directive::Include(t.substring_char(m, e).to_owned());
    }
    if str_eq(name, "/") {
        return Directive::Comment;
    }
    Directive::Unknown
}

/// The basename of a path.
pub fn basename_str(p: &str) -> (r: String)
    ensures
        r@ == basename_spec(p@),
{
    let n = p.unicode_len();
    let mut q: usize = n;
    while q > 0 && p.get_char(q - 1) == '/'
        invariant
            q <= n,
            n == p@.len(),
            forall|x: int| q <= x < n ==> p@[x] == '/',
        decreases q,
    {
        q -= 1;
    }
    let mut w: usize = q;
    while w > 0 && p.get_char(w - 1) != '/'
        invariant
            w <= q <= n,
            n == p@.len(),
            forall|x: int| w <= x < q ==> p@[x] != '/',
        decreases w,
    {
        w -= 1;
    }
    proof {
        lemma_drop_back_while(p@, |c: char| c == '/', q as int);
        let stem = p@.subrange(0, q as int);
        lemma_take_back_while(stem, |c: char| c != '/', w as int);
        assert(stem.subrange(w as int, q as int) =~= p@.subrange(w as int, q as int));
    }
    p.substring_char(w, q).to_owned()
}

/// Whether a string is among the strings of a vector.
pub fn contains_str(v: &Vec<String>, s: &str) -> (r: bool)
    ensures
        r == v.deep_view().contains(s@),
{
    let mut i: usize = 0;
    while i < v.len()
        invariant
            i <= v.len(),
            forall|x: int| 0 <= x < i ==> v.deep_view()[x] != s@,
        decreases v.len() - i,
    {
        if str_eq(v[i].as_str(), s) {
            assert(v.deep_view()[i as int] == s@);
            return true;
        }
        i += 1;
    }
    assert(!v.deep_view().contains(s@));
    false
}

/// The whole assembler state over source text: the collected source lines,
/// the include guard, the symbol table, and the assembled program.
pub struct Parcher {
    pub lines: Vec<Line>,
    pub instructionIndex: u64,
    pub filtered: Vec<String>,
    pub imports: Vec<String>,
    pub labels: Vec<LabelBinding>,
}

impl Parcher {
    /// A fresh assembler with no lines and an empty include guard.
    pub fn new() -> (r: Parcher)
        ensures
            r.lines@.len() == 0,
            r.instructionIndex == 0,
            r.filtered@.len() == 0,
            r.imports@.len() == 0,
            r.labels@.len() == 0,
    {
        Parcher {
            lines: Vec::new(),
            instructionIndex: 0,
            filtered: Vec::new(),
            imports: Vec::new(),
            labels: Vec::new(),
        }
    }

    /// Takes the primary source text: keeps its non-blank lines and scans
    /// them for directives. Returns the include paths to read, in directive
    /// order, each new basename once; a path whose basename was already
    /// included is skipped. On a fatal directive nothing is changed.
    pub fn loadSource(&mut self, content: &str) -> (r: Result<Vec<String>, AsmError>)
        ensures
            match scan_includes(nonblank_lines(content@), old(self).imports.deep_view()) {
                Ok((paths, imp)) => r matches Ok(v) && v.deep_view() == paths
                    && final(self).imports.deep_view() == imp
                    && final(self).filtered.deep_view() == nonblank_lines(content@)
                    && final(self).lines@ == old(self).lines@
                    && final(self).labels@ == old(self).labels@
                    && final(self).instructionIndex == old(self).instructionIndex,
                Err(e) => r == Err::<Vec<String>, AsmError>(e) && *final(self) == *old(self),
            },
    {
        let parts = split_str(content, '\n');
        let ghost all = parts.deep_view();
        let mut filtered: Vec<String> = Vec::new();
        let mut i: usize = 0;
        proof {
            assert(all.take(0) =~= Seq::<Seq<char>>::empty());
            assert(filtered.deep_view() =~= keep_nonblank(all.take(0)));
        }
        while i < parts.len()
            invariant
                i <= parts.len(),
                all == parts.deep_view(),
                filtered.deep_view() == keep_nonblank(all.take(i as int)),
            decreases parts.len() - i,
        {
            let ghost prev = filtered.deep_view();
            proof {
                assert(all.take(i + 1).drop_last() =~= all.take(i as int));
                assert(all.take(i + 1).last() == all[i as int]);
            }
            let t = trim_str(parts[i].as_str());
            if t.unicode_len() > 0 {
                filtered.push(parts[i].clone());
                proof {
                    assert(filtered.deep_view() =~= prev.push(all[i as int]));
                }
            }
            i += 1;
        }
        proof {
            assert(all.take(parts@.len() as int) =~= all);
        }
        let ghost flines = filtered.deep_view();
        let ghost imports0 = old(self).imports.deep_view();
        // The directive scan over the non-blank lines.
        let mut paths: Vec<String> = Vec::new();
        let mut imports: Vec<String> = Vec::new();
        // Start from the current include guard.
        let mut k: usize = 0;
        while k < self.imports.len()
            invariant
                k <= self.imports@.len(),
                self == old(self),
                imports.deep_view() == old(self).imports.deep_view().take(k as int),
            decreases self.imports@.len() - k,
        {
            let ghost prev = imports.deep_view();
            imports.push(self.imports[k].clone());
            proof {
                assert(imports.deep_view() =~= prev.push(old(self).imports.deep_view()[k as int]));
                assert(old(self).imports.deep_view().take(k + 1) =~= old(
                    self,
                ).imports.deep_view().take(k as int).push(
                    old(self).imports.deep_view()[k as int],
                ));
            }
            k += 1;
        }
        proof {
            assert(old(self).imports.deep_view().take(old(self).imports@.len() as int) =~= old(
                self,
            ).imports.deep_view());
        }
        let mut s: usize = 0;
        proof {
            assert(flines.take(0) =~= Seq::<Seq<char>>::empty());
        }
        while s < filtered.len()
            invariant
                s <= filtered.len(),
                flines == filtered.deep_view(),
                flines == nonblank_lines(content@),
                imports0 == old(self).imports.deep_view(),
                self == old(self),
                scan_includes(flines.take(s as int), imports0) == Ok::<
                    (Seq<Seq<char>>, Seq<Seq<char>>),
                    AsmError,
                >((paths.deep_view(), imports.deep_view())),
            decreases filtered.len() - s,
        {
            let ghost ppaths = paths.deep_view();
            let ghost pimp = imports.deep_view();
            proof {
                assert(flines.take(s + 1).drop_last() =~= flines.take(s as int));
                assert(flines.take(s + 1).last() == flines[s as int]);
            }
            match classify_directive_line(filtered[s].as_str()) {
                Directive::NotDirective => {},
                Directive::Comment => {},
                Directive::Include(path) => {
                    let ghost pathv = path@;
                    let base = basename_str(path.as_str());
                    let ghost basev = base@;
                    if !contains_str(&imports, base.as_str()) {
                        imports.push(base);
                        paths.push(path);
                        proof {
                            assert(imports.deep_view() =~= pimp.push(basev));
                            assert(paths.deep_view() =~= ppaths.push(pathv));
                        }
                    }
                },
                Directive::MissingPath => {
                    proof {
                        lemma_scan_extends_err(flines, imports0, s + 1);
                    }
                    return Err(AsmError::MalformedInclude);
                },
                Directive::Unknown => {
                    proof {
                        lemma_scan_extends_err(flines, imports0, s + 1);
                    }
                    return Err(AsmError::UnknownDirective);
                },
            }
            s += 1;
        }
        proof {
            assert(flines.take(filtered@.len() as int) =~= flines);
        }
        self.filtered = filtered;
        self.imports = imports;
        Ok(paths)
    }

    /// Appends the non-blank lines of one included file.
    pub fn addInclude(&mut self, content: &str)
        ensures
            final(self).filtered.deep_view() == old(self).filtered.deep_view() + nonblank_lines(
                content@,
            ),
            final(self).lines@ == old(self).lines@,
            final(self).imports@ == old(self).imports@,
            final(self).labels@ == old(self).labels@,
            final(self).instructionIndex == old(self).instructionIndex,
    {
        let parts = split_str(content, '\n');
        let ghost all = parts.deep_view();
        let ghost base = old(self).filtered.deep_view();
        let mut i: usize = 0;
        proof {
            assert(all.take(0) =~= Seq::<Seq<char>>::empty());
            assert(base + keep_nonblank(all.take(0)) =~= base);
        }
        while i < parts.len()
            invariant
                i <= parts.len(),
                all == parts.deep_view(),
                self.lines@ == old(self).lines@,
                self.imports@ == old(self).imports@,
                self.labels@ == old(self).labels@,
                self.instructionIndex == old(self).instructionIndex,
                self.filtered.deep_view() == base + keep_nonblank(all.take(i as int)),
            decreases parts.len() - i,
        {
            let ghost prev = self.filtered.deep_view();
            proof {
                assert(all.take(i + 1).drop_last() =~= all.take(i as int));
                assert(all.take(i + 1).last() == all[i as int]);
            }
            let t = trim_str(parts[i].as_str());
            if t.unicode_len() > 0 {
                self.filtered.push(parts[i].clone());
                proof {
                    assert(self.filtered.deep_view() =~= prev.push(all[i as int]));
                    assert(prev.push(all[i as int]) =~= base + keep_nonblank(all.take(i as int)).push(all[i as int]));
                }
            }
            i += 1;
        }
        proof {
            assert(all.take(parts@.len() as int) =~= all);
        }
    }

    /// Assembles the collected source lines: parses them into intermediate
    /// lines and runs the two-pass core. On success the program, with its
    /// prologue jump to `main` at index 0, is in `lines`.
    pub fn assemble(&mut self) -> (r: Result<(), AsmError>)
        requires
            old(self).lines@.len() == 0,
            old(self).labels@.len() == 0,
            old(self).instructionIndex == 0,
        ensures
            final(self).filtered@ == old(self).filtered@,
            final(self).imports@ == old(self).imports@,
            match spec_assemble_text(old(self).filtered.deep_view()) {
                Ok(prog) => r == Ok::<(), AsmError>(())
                    && final(self).lines@ == prog
                    && final(self).labels.deep_view() == spec_pass1(
                    parse_lines_spec(old(self).filtered.deep_view()).unwrap(),
                )
                    && final(self).instructionIndex as int == count_instructions(
                    parse_lines_spec(old(self).filtered.deep_view()).unwrap(),
                ),
                Err(e) => r == Err::<(), AsmError>(e)
                    && final(self).lines@ == old(self).lines@
                    && final(self).labels@ == old(self).labels@
                    && final(self).instructionIndex == old(self).instructionIndex,
            },
    {
        let ghost flines = self.filtered.deep_view();
        let mut irv: Vec<IntermediateLanguageLine> = Vec::new();
        let mut i: usize = 0;
        proof {
            assert(flines.take(0) =~= Seq::<Seq<char>>::empty());
            assert(irv.deep_view() =~= Seq::<IrLine>::empty());
        }
        while i < self.filtered.len()
            invariant
                i <= self.filtered@.len(),
                self == old(self),
                flines == self.filtered.deep_view(),
                parse_lines_spec(flines.take(i as int)) == Ok::<Seq<IrLine>, AsmError>(
                    irv.deep_view(),
                ),
            decreases self.filtered@.len() - i,
        {
            let ghost prev = irv.deep_view();
            proof {
                assert(flines.take(i + 1).drop_last() =~= flines.take(i as int));
                assert(flines.take(i + 1).last() == flines[i as int]);
            }
            match parchLine(self.filtered[i].as_str()) {
                Ok(None) => {},
                Ok(Some(x)) => {
                    irv.push(x);
                    proof {
                        assert(irv.deep_view() =~= prev.push(x@));
                    }
                },
                Err(e) => {
                    proof {
                        lemma_parse_extends_err(flines, i + 1);
                    }
                    return Err(e);
                },
            }
            i += 1;
        }
        proof {
            assert(flines.take(self.filtered@.len() as int) =~= flines);
        }
        let ghost ir = irv.deep_view();
        let mut compiler = ByteCodeCompiler::new();
        let res = compiler.compileByteCodeFromIntermediate(IntermediateLanguage { lines: irv });
        match res {
            Ok(()) => {
                self.lines = compiler.lines;
                self.labels = compiler.labels;
                self.instructionIndex = compiler.instructionIndex as u64;
                Ok(())
            },
            Err(e) => Err(e),
        }
    }
}

} // verus!
