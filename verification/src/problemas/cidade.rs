use vstd::prelude::*;

verus! {

/// A routing problem: the locations, which of them is the depot, and how
/// many vehicles there are.
#[derive(Debug)]
pub struct Problema {
    pub qtd_caminhoes: usize,
    pub indice_deposito: usize,
    pub cidades: Vec<Cidade>,
}

/// A location: its number in the problem's description, where it lies and
/// how much it asks for.
#[derive(Debug)]
pub struct Cidade {
    pub numero: usize,
    pub x: i32,
    pub y: i32,
    pub demanda: i32,
}

/// Whether a byte separates fields: a blank, a tab, or one of the bytes
/// that end a line or a page.
pub open spec fn espaco(b: u8) -> bool {
    b == 32 || 9 <= b <= 13
}

/// Whether a byte is a decimal digit.
pub open spec fn digito(b: u8) -> bool {
    48 <= b <= 57
}

/// Where the field begins that is the first at or after `i`: the first
/// place from `i` on that holds no separator, or the end of the line.
pub open spec fn inicio_do_campo(s: Seq<u8>, i: int) -> int
    decreases s.len() - i,
{
    if 0 <= i < s.len() && espaco(s[i]) {
        inicio_do_campo(s, i + 1)
    } else {
        i
    }
}

/// Where the field ends that begins at `i`: the first place from `i` on
/// that holds a separator, or the end of the line.
pub open spec fn fim_do_campo(s: Seq<u8>, i: int) -> int
    decreases s.len() - i,
{
    if 0 <= i < s.len() && !espaco(s[i]) {
        fim_do_campo(s, i + 1)
    } else {
        i
    }
}

/// Where field number `k` of a line begins, fields counted from zero.
pub open spec fn inicio_do_campo_numero(s: Seq<u8>, k: nat) -> int
    decreases k,
{
    if k == 0 {
        inicio_do_campo(s, 0)
    } else {
        inicio_do_campo(s, fim_do_campo(s, inicio_do_campo_numero(s, (k - 1) as nat)))
    }
}

/// Field number `k` of a line; empty where the line has no such field.
pub open spec fn campo(s: Seq<u8>, k: nat) -> Seq<u8> {
    s.subrange(inicio_do_campo_numero(s, k), fim_do_campo(s, inicio_do_campo_numero(s, k)))
}

/// A field lies within its line.
pub proof fn lei_campo(s: Seq<u8>, i: int)
    requires
        0 <= i <= s.len(),
    ensures
        i <= inicio_do_campo(s, i) <= s.len(),
        i <= fim_do_campo(s, i) <= s.len(),
    decreases s.len() - i,
{
    if i < s.len() {
        lei_campo(s, i + 1);
    }
}

/// The fields of a line follow one another within the line.
pub proof fn lei_campo_numero(s: Seq<u8>, k: nat)
    ensures
        0 <= inicio_do_campo_numero(s, k) <= fim_do_campo(s, inicio_do_campo_numero(s, k))
            <= s.len(),
    decreases k,
{
    if k == 0 {
        lei_campo(s, 0);
    } else {
        lei_campo_numero(s, (k - 1) as nat);
        lei_campo(s, fim_do_campo(s, inicio_do_campo_numero(s, (k - 1) as nat)));
    }
    lei_campo(s, inicio_do_campo_numero(s, k));
}

/// The number that decimal digits spell.
pub open spec fn valor_decimal(d: Seq<u8>) -> nat
    decreases d.len(),
{
    if d.len() == 0 {
        0
    } else {
        valor_decimal(d.drop_last()) * 10 + (d.last() - 48) as nat
    }
}

/// Whether `d` is one decimal digit or more and nothing else.
pub open spec fn so_digitos(d: Seq<u8>) -> bool {
    d.len() > 0 && forall|i: int| 0 <= i < d.len() ==> digito(#[trigger] d[i])
}

/// The number that a field spells with digits alone, if it is no more
/// than `limite`.
pub open spec fn numero_ate(d: Seq<u8>, limite: nat) -> Option<nat> {
    if so_digitos(d) && valor_decimal(d) <= limite {
        Some(valor_decimal(d))
    } else {
        None
    }
}

/// The natural number that a field spells: digits, maybe behind a plus
/// sign; none where that number is beyond `usize`.
pub open spec fn natural(c: Seq<u8>) -> Option<usize> {
    let d = if c.len() > 0 && c[0] == 43 {
        c.skip(1)
    } else {
        c
    };
    match numero_ate(d, usize::MAX as nat) {
        Some(v) => Some(v as usize),
        None => None,
    }
}

/// The whole number that a field spells: digits, maybe behind a plus or
/// a minus sign; none where that number is beyond `i32`.
pub open spec fn inteiro(c: Seq<u8>) -> Option<i32> {
    if c.len() > 0 && c[0] == 45 {
        match numero_ate(c.skip(1), 0x8000_0000) {
            Some(v) => Some((-v) as i32),
            None => None,
        }
    } else {
        let d = if c.len() > 0 && c[0] == 43 {
            c.skip(1)
        } else {
            c
        };
        match numero_ate(d, 0x7fff_ffff) {
            Some(v) => Some(v as i32),
            None => None,
        }
    }
}

/// More digits do not spell less.
pub proof fn lei_valor_cresce(d: Seq<u8>, i: int)
    requires
        0 <= i <= d.len(),
        forall|j: int| 0 <= j < d.len() ==> digito(#[trigger] d[j]),
    ensures
        valor_decimal(d.take(i)) <= valor_decimal(d),
    decreases d.len() - i,
{
    if i < d.len() {
        lei_valor_cresce(d, i + 1);
        assert(d.take(i + 1).drop_last() == d.take(i));
        assert(d.take(i + 1).last() == d[i]);
    } else {
        assert(d.take(i) == d);
    }
}

/// The field that is the first at or after `de`: where it begins and
/// where it ends.
pub fn proximo_campo(linha: &[u8], de: usize) -> (r: (usize, usize))
    requires
        de <= linha@.len(),
    ensures
        r.0 == inicio_do_campo(linha@, de as int),
        r.1 == fim_do_campo(linha@, r.0 as int),
        de <= r.0 <= r.1 <= linha@.len(),
{
    let n = linha.len();
    let mut i: usize = de;
    while i < n && (linha[i] == 32 || (9 <= linha[i] && linha[i] <= 13))
        invariant
            de <= i <= n,
            n == linha@.len(),
            inicio_do_campo(linha@, de as int) == inicio_do_campo(linha@, i as int),
        decreases n - i,
    {
        i += 1;
    }
    let mut j: usize = i;
    while j < n && !(linha[j] == 32 || (9 <= linha[j] && linha[j] <= 13))
        invariant
            i <= j <= n,
            n == linha@.len(),
            fim_do_campo(linha@, i as int) == fim_do_campo(linha@, j as int),
        decreases n - j,
    {
        j += 1;
    }
    (i, j)
}

/// The number that the bytes from `inicio` up to `fim` spell with digits
/// alone, if it is no more than `limite`.
pub fn le_digitos(linha: &[u8], inicio: usize, fim: usize, limite: u64) -> (r: Option<u64>)
    requires
        inicio <= fim <= linha@.len(),
    ensures
        r matches Some(v) ==> numero_ate(linha@.subrange(inicio as int, fim as int), limite as nat)
            == Some(v as nat),
        r is None ==> numero_ate(linha@.subrange(inicio as int, fim as int), limite as nat)
            is None,
{
    let ghost d = linha@.subrange(inicio as int, fim as int);
    if inicio == fim {
        return None;
    }
    let mut acc: u64 = 0;
    let mut i: usize = inicio;
    while i < fim
        invariant
            inicio <= i <= fim <= linha@.len(),
            d == linha@.subrange(inicio as int, fim as int),
            forall|j: int| 0 <= j < i - inicio ==> digito(#[trigger] d[j]),
            acc == valor_decimal(d.take(i - inicio)),
            acc <= limite,
        decreases fim - i,
    {
        let b = linha[i];
        assert(b == d[i - inicio]);
        if b < 48 || b > 57 {
            return None;
        }
        let digito_lido: u64 = (b - 48) as u64;
        proof {
            assert(d.take(i - inicio + 1).drop_last() == d.take(i - inicio));
            assert(d.take(i - inicio + 1).last() == b);
        }
        if digito_lido > limite || acc > (limite - digito_lido) / 10 {
            proof {
                assert(valor_decimal(d.take(i - inicio + 1)) > limite);
                if so_digitos(d) {
                    lei_valor_cresce(d, i - inicio + 1);
                }
            }
            return None;
        }
        acc = acc * 10 + digito_lido;
        i += 1;
    }
    proof {
        assert(d.take(fim - inicio) == d);
    }
    Some(acc)
}

/// The natural number that the bytes from `inicio` up to `fim` spell.
pub fn le_natural(linha: &[u8], inicio: usize, fim: usize) -> (r: Option<usize>)
    requires
        inicio <= fim <= linha@.len(),
    ensures
        r == natural(linha@.subrange(inicio as int, fim as int)),
{
    let ghost c = linha@.subrange(inicio as int, fim as int);
    let de = if inicio < fim && linha[inicio] == 43 {
        inicio + 1
    } else {
        inicio
    };
    proof {
        if inicio < fim {
            assert(c[0] == linha@[inicio as int]);
        }
        if de > inicio {
            assert(c.skip(1) == linha@.subrange(de as int, fim as int));
        }
    }
    match le_digitos(linha, de, fim, usize::MAX as u64) {
        Some(v) => Some(v as usize),
        None => None,
    }
}

/// The whole number that the bytes from `inicio` up to `fim` spell.
pub fn le_inteiro(linha: &[u8], inicio: usize, fim: usize) -> (r: Option<i32>)
    requires
        inicio <= fim <= linha@.len(),
    ensures
        r == inteiro(linha@.subrange(inicio as int, fim as int)),
{
    let ghost c = linha@.subrange(inicio as int, fim as int);
    proof {
        if inicio < fim {
            assert(c[0] == linha@[inicio as int]);
            assert(c.skip(1) == linha@.subrange(inicio as int + 1, fim as int));
        }
    }
    if inicio < fim && linha[inicio] == 45 {
        match le_digitos(linha, inicio + 1, fim, 0x8000_0000) {
            Some(v) => Some((-(v as i64)) as i32),
            None => None,
        }
    } else {
        let de = if inicio < fim && linha[inicio] == 43 {
            inicio + 1
        } else {
            inicio
        };
        match le_digitos(linha, de, fim, 0x7fff_ffff) {
            Some(v) => Some(v as i32),
            None => None,
        }
    }
}

/// The location that a line describes: its number and where it lies, in
/// the first three fields. Its demand is not yet known and is zero.
pub open spec fn cidade_descrita(s: Seq<u8>) -> Option<Cidade> {
    match (natural(campo(s, 0)), inteiro(campo(s, 1)), inteiro(campo(s, 2))) {
        (Some(numero), Some(x), Some(y)) => Some(Cidade { numero, x, y, demanda: 0 }),
        _ => None,
    }
}

/// The demand that a line describes: whose it is, counted from one, and
/// how much, in the first two fields.
pub open spec fn demanda_descrita(s: Seq<u8>) -> Option<(usize, i32)> {
    match (natural(campo(s, 0)), inteiro(campo(s, 1))) {
        (Some(indice), Some(demanda)) => Some((indice, demanda)),
        _ => None,
    }
}

/// Reads the location that the bytes of a line describe.
pub fn interpreta_cidade(linha: &[u8]) -> (r: Option<Cidade>)
    ensures
        r == cidade_descrita(linha@),
{
    let (i0, f0) = proximo_campo(linha, 0);
    let (i1, f1) = proximo_campo(linha, f0);
    let (i2, f2) = proximo_campo(linha, f1);
    proof {
        reveal_with_fuel(inicio_do_campo_numero, 3);
    }
    let numero = le_natural(linha, i0, f0);
    let x = le_inteiro(linha, i1, f1);
    let y = le_inteiro(linha, i2, f2);
    match (numero, x, y) {
        (Some(numero), Some(x), Some(y)) => Some(Cidade { numero, x, y, demanda: 0 }),
        _ => None,
    }
}

/// Reads the demand that the bytes of a line describe.
pub fn interpreta_demanda(linha: &[u8]) -> (r: Option<(usize, i32)>)
    ensures
        r == demanda_descrita(linha@),
{
    let (i0, f0) = proximo_campo(linha, 0);
    let (i1, f1) = proximo_campo(linha, f0);
    proof {
        reveal_with_fuel(inicio_do_campo_numero, 2);
    }
    let indice = le_natural(linha, i0, f0);
    let demanda = le_inteiro(linha, i1, f1);
    match (indice, demanda) {
        (Some(indice), Some(demanda)) => Some((indice, demanda)),
        _ => None,
    }
}

/// Reads the location that a line describes; none where the line does
/// not describe one.
pub fn ler_cidade(linha: &String) -> (r: Option<Cidade>)
    ensures
        r == cidade_descrita(vstd::utf8::encode_utf8(linha@)),
{
    interpreta_cidade(linha.as_str().as_bytes())
}

/// Whether `cidades` can take the demand that a line describes: the line
/// describes one, for one of `cidades`, and the sum is within `i32`.
pub open spec fn aceita_demanda(cidades: Seq<Cidade>, s: Seq<u8>) -> bool {
    &&& demanda_descrita(s) matches Some((indice, demanda))
    &&& 1 <= indice <= cidades.len()
    &&& i32::MIN <= cidades[indice - 1].demanda + demanda <= i32::MAX
}

/// Adds the demand that a line describes to that of the location it
/// names, and says whether it did: where `cidades` cannot take the
/// demand they stay as they are.
pub fn atualiza_demanda(cidades: &mut Vec<Cidade>, linha: &String) -> (feito: bool)
    ensures
        feito == aceita_demanda(old(cidades)@, vstd::utf8::encode_utf8(linha@)),
        !feito ==> final(cidades)@ == old(cidades)@,
        feito ==> {
            let (indice, demanda) = demanda_descrita(vstd::utf8::encode_utf8(linha@)).unwrap();
            let antes = old(cidades)@[indice - 1];
            final(cidades)@ == old(cidades)@.update(
                indice - 1,
                Cidade {
                    numero: antes.numero,
                    x: antes.x,
                    y: antes.y,
                    demanda: (antes.demanda + demanda) as i32,
                },
            )
        },
{
    soma_demanda(cidades, linha.as_str().as_bytes())
}

/// The part of a problem's description that a line belongs to.
#[derive(Clone, Copy, Debug, PartialEq, Eq, Structural)]
pub enum AreaArquivo {
    /// Before any part that is read.
    InicioLeitura,
    /// Where the locations lie.
    PosicaoCidade,
    /// What the locations ask for.
    DemandaCidade,
    /// Which location is the depot.
    PosicaoCidadeDeposito,
}

/// What has been read of a problem's description.
pub struct Leitura {
    pub area: AreaArquivo,
    /// The depot, counted from one; zero while none was read.
    pub indice_deposito: usize,
    pub cidades: Vec<Cidade>,
    /// Whether the end of the description was read: what follows it is
    /// not read.
    pub terminada: bool,
}

/// What has been read of a problem's description, as a value to reason
/// about.
pub struct EstadoLeitura {
    pub area: AreaArquivo,
    pub indice_deposito: usize,
    pub cidades: Seq<Cidade>,
    pub terminada: bool,
}

impl View for Leitura {
    type V = EstadoLeitura;

    open spec fn view(&self) -> EstadoLeitura {
        EstadoLeitura {
            area: self.area,
            indice_deposito: self.indice_deposito,
            cidades: self.cidades@,
            terminada: self.terminada,
        }
    }
}

/// The bytes of the word that begins the part with the places.
pub open spec fn palavra_posicoes() -> Seq<u8> {
    vstd::utf8::encode_utf8("NODE_COORD_SECTION"@)
}

/// The bytes of the word that begins the part with the demands.
pub open spec fn palavra_demandas() -> Seq<u8> {
    vstd::utf8::encode_utf8("DEMAND_SECTION"@)
}

/// The bytes of the word that begins the part with the depot.
pub open spec fn palavra_deposito() -> Seq<u8> {
    vstd::utf8::encode_utf8("DEPOT_SECTION"@)
}

/// The bytes of the word that ends a description.
pub open spec fn palavra_fim() -> Seq<u8> {
    vstd::utf8::encode_utf8("EOF"@)
}

/// The bytes of the line that ends the part with the depot.
pub open spec fn palavra_sem_deposito() -> Seq<u8> {
    vstd::utf8::encode_utf8("-1"@)
}

/// Whether a line, but for separators around it, is `palavra`. A word
/// has no separator in it and is not empty.
pub open spec fn linha_e(s: Seq<u8>, palavra: Seq<u8>) -> bool {
    campo(s, 0) == palavra && campo(s, 1).len() == 0
}

/// The depot that a line of the depot's part names: the natural number
/// that the line is, but for separators around it.
pub open spec fn deposito_descrito(s: Seq<u8>) -> Option<usize> {
    if campo(s, 1).len() == 0 {
        natural(campo(s, 0))
    } else {
        None
    }
}

/// What has been read after one line more; nothing where the line is
/// not what its part of the description asks for.
pub open spec fn apos_linha(antes: EstadoLeitura, s: Seq<u8>) -> Option<EstadoLeitura> {
    if antes.terminada {
        Some(antes)
    } else if linha_e(s, palavra_posicoes()) {
        Some(EstadoLeitura { area: AreaArquivo::PosicaoCidade, ..antes })
    } else if linha_e(s, palavra_demandas()) {
        Some(EstadoLeitura { area: AreaArquivo::DemandaCidade, ..antes })
    } else if linha_e(s, palavra_deposito()) {
        Some(EstadoLeitura { area: AreaArquivo::PosicaoCidadeDeposito, ..antes })
    } else if linha_e(s, palavra_fim()) {
        Some(EstadoLeitura { terminada: true, ..antes })
    } else {
        match antes.area {
            AreaArquivo::InicioLeitura => Some(antes),
            AreaArquivo::PosicaoCidade => match cidade_descrita(s) {
                Some(cidade) => Some(
                    EstadoLeitura { cidades: antes.cidades.push(cidade), ..antes },
                ),
                None => None,
            },
            AreaArquivo::PosicaoCidadeDeposito => if linha_e(s, palavra_sem_deposito()) {
                Some(antes)
            } else {
                match deposito_descrito(s) {
                    Some(indice) => Some(EstadoLeitura { indice_deposito: indice, ..antes }),
                    None => None,
                }
            },
            AreaArquivo::DemandaCidade => if aceita_demanda(antes.cidades, s) {
                let (indice, demanda) = demanda_descrita(s).unwrap();
                let cidade = antes.cidades[indice - 1];
                Some(
                    EstadoLeitura {
                        cidades: antes.cidades.update(
                            indice - 1,
                            Cidade {
                                numero: cidade.numero,
                                x: cidade.x,
                                y: cidade.y,
                                demanda: (cidade.demanda + demanda) as i32,
                            },
                        ),
                        ..antes
                    },
                )
            } else {
                None
            },
        }
    }
}

/// What has been read after the first `k` of `linhas`.
pub open spec fn apos_linhas(linhas: Seq<Seq<u8>>, k: int) -> Option<EstadoLeitura>
    decreases k,
{
    if k <= 0 {
        Some(
            EstadoLeitura {
                area: AreaArquivo::InicioLeitura,
                indice_deposito: 0,
                cidades: Seq::empty(),
                terminada: false,
            },
        )
    } else {
        match apos_linhas(linhas, k - 1) {
            Some(antes) => apos_linha(antes, linhas[k - 1]),
            None => None,
        }
    }
}

/// The bytes of each of `linhas`.
pub open spec fn bytes_das_linhas(linhas: Seq<String>) -> Seq<Seq<u8>> {
    Seq::new(linhas.len(), |i: int| vstd::utf8::encode_utf8(linhas[i]@))
}

/// Whether the bytes from `inicio` up to `fim` are those of `palavra`.
pub fn campo_igual(linha: &[u8], inicio: usize, fim: usize, palavra: &str) -> (r: bool)
    requires
        inicio <= fim <= linha@.len(),
    ensures
        r == (linha@.subrange(inicio as int, fim as int) == vstd::utf8::encode_utf8(palavra@)),
{
    let p = palavra.as_bytes();
    let ghost c = linha@.subrange(inicio as int, fim as int);
    assert(p@ == vstd::utf8::encode_utf8(palavra@));
    if fim - inicio != p.len() {
        return false;
    }
    let mut i: usize = 0;
    while i < p.len()
        invariant
            i <= p@.len(),
            p@ == vstd::utf8::encode_utf8(palavra@),
            inicio <= fim <= linha@.len(),
            fim - inicio == p@.len(),
            c == linha@.subrange(inicio as int, fim as int),
            c.take(i as int) == p@.take(i as int),
        decreases p@.len() - i,
    {
        if linha[inicio + i] != p[i] {
            assert(c[i as int] != p@[i as int]);
            return false;
        }
        proof {
            assert(c[i as int] == p@[i as int]);
            assert(c.take(i as int + 1) == c.take(i as int).push(c[i as int]));
            assert(p@.take(i as int + 1) == p@.take(i as int).push(p@[i as int]));
        }
        i += 1;
    }
    proof {
        assert(c.take(c.len() as int) == c);
        assert(p@.take(p@.len() as int) == p@);
    }
    true
}

impl Leitura {
    /// Nothing read yet.
    pub fn criar() -> (r: Self)
        ensures
            Some(r@) == apos_linhas(Seq::empty(), 0),
    {
        Leitura {
            area: AreaArquivo::InicioLeitura,
            indice_deposito: 0,
            cidades: Vec::new(),
            terminada: false,
        }
    }

    /// Reads one line more and says whether the line was what its part
    /// of the description asks for; where it was not, what was read is
    /// not to be relied on.
    pub fn le_linha(&mut self, linha: &[u8]) -> (lida: bool)
        ensures
            lida == apos_linha(old(self)@, linha@).is_some(),
            lida ==> Some(final(self)@) == apos_linha(old(self)@, linha@),
    {
        if self.terminada {
            return true;
        }
        let (i0, f0) = proximo_campo(linha, 0);
        let (i1, f1) = proximo_campo(linha, f0);
        proof {
            reveal_with_fuel(inicio_do_campo_numero, 2);
        }
        let uma_palavra = i1 == f1;
        if uma_palavra && campo_igual(linha, i0, f0, "NODE_COORD_SECTION") {
            self.area = AreaArquivo::PosicaoCidade;
            return true;
        }
        if uma_palavra && campo_igual(linha, i0, f0, "DEMAND_SECTION") {
            self.area = AreaArquivo::DemandaCidade;
            return true;
        }
        if uma_palavra && campo_igual(linha, i0, f0, "DEPOT_SECTION") {
            self.area = AreaArquivo::PosicaoCidadeDeposito;
            return true;
        }
        if uma_palavra && campo_igual(linha, i0, f0, "EOF") {
            self.terminada = true;
            return true;
        }
        match self.area {
            AreaArquivo::InicioLeitura => true,
            AreaArquivo::PosicaoCidade => match interpreta_cidade(linha) {
                Some(cidade) => {
                    self.cidades.push(cidade);
                    true
                },
                None => false,
            },
            AreaArquivo::PosicaoCidadeDeposito => {
                if uma_palavra && campo_igual(linha, i0, f0, "-1") {
                    return true;
                }
                if !uma_palavra {
                    return false;
                }
                match le_natural(linha, i0, f0) {
                    Some(indice) => {
                        self.indice_deposito = indice;
                        true
                    },
                    None => false,
                }
            },
            AreaArquivo::DemandaCidade => soma_demanda(&mut self.cidades, linha),
        }
    }
}

/// Adds the demand that the bytes of a line describe to that of the
/// location they name, and says whether it did.
pub fn soma_demanda(cidades: &mut Vec<Cidade>, linha: &[u8]) -> (feito: bool)
    ensures
        feito == aceita_demanda(old(cidades)@, linha@),
        !feito ==> final(cidades)@ == old(cidades)@,
        feito ==> {
            let (indice, demanda) = demanda_descrita(linha@).unwrap();
            let antes = old(cidades)@[indice - 1];
            final(cidades)@ == old(cidades)@.update(
                indice - 1,
                Cidade {
                    numero: antes.numero,
                    x: antes.x,
                    y: antes.y,
                    demanda: (antes.demanda + demanda) as i32,
                },
            )
        },
{
    match interpreta_demanda(linha) {
        Some((indice, demanda)) => {
            if indice < 1 || indice > cidades.len() {
                return false;
            }
            let soma: i64 = cidades[indice - 1].demanda as i64 + demanda as i64;
            if soma < i32::MIN as i64 || soma > i32::MAX as i64 {
                return false;
            }
            cidades[indice - 1].demanda = soma as i32;
            true
        },
        None => false,
    }
}

/// The number of vehicles of every problem.
pub const QTD_CAMINHOES: usize = 5;

/// Reads a problem from the lines of its description.
///
/// A line that is one of the words `NODE_COORD_SECTION`,
/// `DEMAND_SECTION` and `DEPOT_SECTION` begins a part; the lines of the
/// part with the places describe one location each, those of the part
/// with the demands one demand each, and those of the part with the
/// depot name it, counted from one, until a line `-1`. Lines before the
/// first part are passed over, and so is what follows a line `EOF`.
/// There is no problem where a line is not what its part asks for, or
/// where no depot is named.
pub fn ler_linhas(linhas: &Vec<String>) -> (r: Option<Problema>)
    ensures
        r matches Some(problema) ==> {
            &&& apos_linhas(bytes_das_linhas(linhas@), linhas@.len() as int) matches Some(estado)
            &&& estado.indice_deposito > 0
            &&& problema.indice_deposito == estado.indice_deposito - 1
            &&& problema.cidades@ == estado.cidades
            &&& problema.qtd_caminhoes == QTD_CAMINHOES
        },
        r is None ==> (apos_linhas(bytes_das_linhas(linhas@), linhas@.len() as int) matches Some(
            estado,
        ) ==> estado.indice_deposito == 0),
{
    let ghost bytes = bytes_das_linhas(linhas@);
    let mut leitura = Leitura::criar();
    let mut i: usize = 0;
    while i < linhas.len()
        invariant
            i <= linhas@.len(),
            bytes == bytes_das_linhas(linhas@),
            Some(leitura@) == apos_linhas(bytes, i as int),
        decreases linhas@.len() - i,
    {
        let linha = linhas[i].as_str().as_bytes();
        assert(linha@ == bytes[i as int]);
        if !leitura.le_linha(linha) {
            proof {
                lema_sem_volta(bytes, i as int + 1, linhas@.len() as int);
            }
            return None;
        }
        i += 1;
    }
    if leitura.indice_deposito == 0 {
        return None;
    }
    Some(
        Problema {
            indice_deposito: leitura.indice_deposito - 1,
            cidades: leitura.cidades,
            qtd_caminhoes: QTD_CAMINHOES,
        },
    )
}

/// Once a line was not what its part asks for, nothing that follows
/// mends it.
proof fn lema_sem_volta(linhas: Seq<Seq<u8>>, k: int, n: int)
    requires
        0 <= k <= n,
        apos_linhas(linhas, k) is None,
    ensures
        apos_linhas(linhas, n) is None,
    decreases n - k,
{
    if k < n {
        lema_sem_volta(linhas, k, n - 1);
    }
}

} // verus!
